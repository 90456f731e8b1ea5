//! Earth orientation parameter (EOP) data: the extrapolation and data-type
//! settings, the fixed-column line formats of IERS C04 and standard
//! ("finals2000") files, and the table that loading a whole file builds.
//!
//! Parameter values are kept as the decimal text written in the file, in the
//! file's own units (arcseconds for polar motion and dX/dY, seconds for
//! UT1-UTC and LOD); converting them to floating point is left to callers.
use vstd::prelude::*;
use std::collections::HashMap;
use vstd::string::StringSliceAdditionalSpecFns;
use crate::text::{
    enclose, str_is,
    check_f64_range, parse_f64_spec, parse_u32_range, parse_u32_spec, slice_ok, slice_ok_exec, trim,
    trim_range, NumberError,
};

verus! {

broadcast use vstd::std_specs::hash::group_hash_axioms;

/// Behavior of EOP lookups for dates past the end of the loaded data.
///
/// - `Zero`: return zero for the missing data
/// - `Hold`: return the last value present
/// - `Error`: stop the program
#[derive(Debug, Clone, Copy, PartialEq, Eq, Structural)]
pub enum EOPExtrapolation {
    Zero,
    Hold,
    Error,
}

/// Kind of Earth orientation data loaded.
///
/// - `C04`: IERS long-term EOP 14 C04 product
/// - `StandardBulletinA`: Bulletin A columns of a standard finals2000 file
/// - `StandardBulletinB`: Bulletin B columns of a standard finals2000 file
/// - `Static`: one constant set of values used for all dates
#[derive(Debug, Clone, Copy, PartialEq, Eq, Structural)]
pub enum EOPType {
    C04,
    StandardBulletinA,
    StandardBulletinB,
    Static,
}

/// Display text of an extrapolation setting.
pub open spec fn extrapolation_display(e: EOPExtrapolation) -> Seq<char> {
    match e {
        EOPExtrapolation::Zero => "EOPExtrapolation::Zero"@,
        EOPExtrapolation::Hold => "EOPExtrapolation::Hold"@,
        EOPExtrapolation::Error => "EOPExtrapolation::Error"@,
    }
}

/// Display text of a data type.
pub open spec fn eop_type_display(t: EOPType) -> Seq<char> {
    match t {
        EOPType::C04 => "C04"@,
        EOPType::StandardBulletinA => "Bulletin A"@,
        EOPType::StandardBulletinB => "Bulletin B"@,
        EOPType::Static => "Static"@,
    }
}

impl EOPExtrapolation {
    /// Display form, e.g. `"EOPExtrapolation::Hold"`.
    pub fn to_string(&self) -> (s: String)
        ensures
            s@ == extrapolation_display(*self),
    {
        match self {
            EOPExtrapolation::Zero => String::from_str("EOPExtrapolation::Zero"),
            EOPExtrapolation::Hold => String::from_str("EOPExtrapolation::Hold"),
            EOPExtrapolation::Error => String::from_str("EOPExtrapolation::Error"),
        }
    }
}

impl EOPType {
    /// Display form, e.g. `"Bulletin A"`.
    pub fn to_string(&self) -> (s: String)
        ensures
            s@ == eop_type_display(*self),
    {
        match self {
            EOPType::C04 => String::from_str("C04"),
            EOPType::StandardBulletinA => String::from_str("Bulletin A"),
            EOPType::StandardBulletinB => String::from_str("Bulletin B"),
            EOPType::Static => String::from_str("Static"),
        }
    }
}

/// The fields of an EOP record.
#[derive(Debug, Clone, Copy, PartialEq, Eq, Structural)]
pub enum EopField {
    Mjd,
    PmX,
    PmY,
    Ut1Utc,
    Lod,
    DX,
    DY,
}

/// Why a line of an EOP file was rejected.
#[derive(Debug, Clone, Copy, PartialEq, Eq, Structural)]
pub enum EopLineError {
    /// A field failed to parse; `start..end` is the byte range of the line
    /// that the error message quotes.
    Field { field: EopField, start: usize, end: usize, cause: NumberError },
    /// The data type cannot be read from a standard file.
    InvalidType { eop_type: EOPType },
    /// A standard-file line is shorter than the primary value columns.
    TooShort,
}

/// Progress of a parse that reads a line field by field: a value, a
/// rejection, or a position where the line cannot be sliced (which aborts).
pub enum Step<T> {
    Value(T),
    Fail(EopLineError),
    Panic,
}

/// One EOP record as written in the file.
pub struct EopValues {
    pub mjd: u32,
    pub pm_x: Seq<u8>,
    pub pm_y: Seq<u8>,
    pub ut1_utc: Seq<u8>,
    pub dx: Option<Seq<u8>>,
    pub dy: Option<Seq<u8>>,
    pub lod: Option<Seq<u8>>,
}

/// One EOP record: the Modified Julian Date and the decimal text of each value.
#[derive(Debug, Clone)]
pub struct EopRecord {
    pub mjd: u32,
    pub pm_x: Vec<u8>,
    pub pm_y: Vec<u8>,
    pub ut1_utc: Vec<u8>,
    pub dx: Option<Vec<u8>>,
    pub dy: Option<Vec<u8>>,
    pub lod: Option<Vec<u8>>,
}

pub open spec fn opt_bytes(o: Option<Vec<u8>>) -> Option<Seq<u8>> {
    match o {
        Some(v) => Some(v@),
        None => None,
    }
}

impl View for EopRecord {
    type V = EopValues;

    open spec fn view(&self) -> EopValues {
        EopValues {
            mjd: self.mjd,
            pm_x: self.pm_x@,
            pm_y: self.pm_y@,
            ut1_utc: self.ut1_utc@,
            dx: opt_bytes(self.dx),
            dy: opt_bytes(self.dy),
            lod: opt_bytes(self.lod),
        }
    }
}

/// An unsigned integer field at bytes `a..b`, trimmed and read as `u32::from_str` reads it.
pub open spec fn u32_field_spec(l: Seq<u8>, a: int, b: int, field: EopField) -> Step<u32> {
    if !slice_ok(l, a, b) {
        Step::Panic
    } else {
        match parse_u32_spec(trim(l.subrange(a, b))) {
            Ok(v) => Step::Value(v),
            Err(e) => Step::Fail(
                EopLineError::Field { field, start: a as usize, end: b as usize, cause: e },
            ),
        }
    }
}

/// A required floating-point field at bytes `a..b`: its trimmed text when it
/// is a float literal; otherwise a rejection quoting bytes `qa..b`.
pub open spec fn f64_field_quoting(
    l: Seq<u8>,
    a: int,
    b: int,
    qa: int,
    field: EopField,
) -> Step<Seq<u8>> {
    if !slice_ok(l, a, b) {
        Step::Panic
    } else {
        match parse_f64_spec(trim(l.subrange(a, b))) {
            Ok(t) => Step::Value(t),
            Err(e) => if !slice_ok(l, qa, b) {
                Step::Panic
            } else {
                Step::Fail(
                    EopLineError::Field { field, start: qa as usize, end: b as usize, cause: e },
                )
            },
        }
    }
}

/// A required floating-point field at bytes `a..b`, quoting the same bytes on failure.
pub open spec fn f64_field_spec(l: Seq<u8>, a: int, b: int, field: EopField) -> Step<Seq<u8>> {
    f64_field_quoting(l, a, b, a, field)
}

/// An optional floating-point field at bytes `a..b`: absent when it does not parse.
pub open spec fn opt_f64_field_spec(l: Seq<u8>, a: int, b: int) -> Step<Option<Seq<u8>>> {
    if !slice_ok(l, a, b) {
        Step::Panic
    } else {
        match parse_f64_spec(trim(l.subrange(a, b))) {
            Ok(t) => Step::Value(Some(t)),
            Err(_) => Step::Value(None),
        }
    }
}

/// A stopped step carried over to another value type.
pub open spec fn halt<T, U>(s: Step<T>) -> Step<U> {
    match s {
        Step::Fail(e) => Step::Fail(e),
        _ => Step::Panic,
    }
}

/// What reading one line of a C04 file gives. Columns (bytes): MJD 12..19,
/// pm_x 19..30, pm_y 30..41, UT1-UTC 41..53, LOD 53..65, dX 65..76, dY 76..87;
/// fields are read in that order and the first failure stops the line.
pub open spec fn c04_line_spec(l: Seq<u8>) -> Step<EopValues> {
    match u32_field_spec(l, 12, 19, EopField::Mjd) {
        Step::Value(mjd) => match f64_field_spec(l, 19, 30, EopField::PmX) {
            Step::Value(pm_x) => match f64_field_spec(l, 30, 41, EopField::PmY) {
                Step::Value(pm_y) => match f64_field_spec(l, 41, 53, EopField::Ut1Utc) {
                    Step::Value(ut1_utc) => match f64_field_spec(l, 53, 65, EopField::Lod) {
                        Step::Value(lod) => match f64_field_spec(l, 65, 76, EopField::DX) {
                            Step::Value(dx) => match f64_field_spec(l, 76, 87, EopField::DY) {
                                Step::Value(dy) => Step::Value(
                                    EopValues {
                                        mjd,
                                        pm_x,
                                        pm_y,
                                        ut1_utc,
                                        dx: Some(dx),
                                        dy: Some(dy),
                                        lod: Some(lod),
                                    },
                                ),
                                s => halt(s),
                            },
                            s => halt(s),
                        },
                        s => halt(s),
                    },
                    s => halt(s),
                },
                s => halt(s),
            },
            s => halt(s),
        },
        s => halt(s),
    }
}

/// The decimal text `0.0`, the LOD value that Bulletin B records carry.
pub open spec fn zero_text() -> Seq<u8> {
    seq![48u8, 46, 48]
}

/// Bulletin A columns (bytes) of a standard line after the MJD: pm_x 17..27
/// (failures quote 18..27), pm_y 37..46, UT1-UTC 58..68, then the optional
/// LOD 78..86, dX 97..106 and dY 116..125.
pub open spec fn bulletin_a_spec(l: Seq<u8>, mjd: u32) -> Step<EopValues> {
    match f64_field_quoting(l, 17, 27, 18, EopField::PmX) {
        Step::Value(pm_x) => match f64_field_spec(l, 37, 46, EopField::PmY) {
            Step::Value(pm_y) => match f64_field_spec(l, 58, 68, EopField::Ut1Utc) {
                Step::Value(ut1_utc) => match opt_f64_field_spec(l, 78, 86) {
                    Step::Value(lod) => match opt_f64_field_spec(l, 97, 106) {
                        Step::Value(dx) => match opt_f64_field_spec(l, 116, 125) {
                            Step::Value(dy) => Step::Value(
                                EopValues { mjd, pm_x, pm_y, ut1_utc, dx, dy, lod },
                            ),
                            s => halt(s),
                        },
                        s => halt(s),
                    },
                    s => halt(s),
                },
                s => halt(s),
            },
            s => halt(s),
        },
        s => halt(s),
    }
}

/// Bulletin B columns (bytes) of a standard line after the MJD: pm_x 134..144,
/// pm_y 144..154, UT1-UTC 154..165, dX 165..175, dY 175..185, all required;
/// LOD is `0.0`.
pub open spec fn bulletin_b_spec(l: Seq<u8>, mjd: u32) -> Step<EopValues> {
    match f64_field_spec(l, 134, 144, EopField::PmX) {
        Step::Value(pm_x) => match f64_field_spec(l, 144, 154, EopField::PmY) {
            Step::Value(pm_y) => match f64_field_spec(l, 154, 165, EopField::Ut1Utc) {
                Step::Value(ut1_utc) => match f64_field_spec(l, 165, 175, EopField::DX) {
                    Step::Value(dx) => match f64_field_spec(l, 175, 185, EopField::DY) {
                        Step::Value(dy) => Step::Value(
                            EopValues {
                                mjd,
                                pm_x,
                                pm_y,
                                ut1_utc,
                                dx: Some(dx),
                                dy: Some(dy),
                                lod: Some(zero_text()),
                            },
                        ),
                        s => halt(s),
                    },
                    s => halt(s),
                },
                s => halt(s),
            },
            s => halt(s),
        },
        s => halt(s),
    }
}

/// What reading one line of a standard file gives: lines shorter than 68
/// bytes are rejected, then the MJD at bytes 6..12 is read, then the columns
/// of the requested bulletin.
pub open spec fn standard_line_spec(l: Seq<u8>, eop_type: EOPType) -> Step<EopValues> {
    if l.len() < 68 {
        Step::Fail(EopLineError::TooShort)
    } else {
        match u32_field_spec(l, 6, 12, EopField::Mjd) {
            Step::Value(mjd) => match eop_type {
                EOPType::StandardBulletinA => bulletin_a_spec(l, mjd),
                EOPType::StandardBulletinB => bulletin_b_spec(l, mjd),
                _ => Step::Fail(EopLineError::InvalidType { eop_type }),
            },
            s => halt(s),
        }
    }
}


/// A step whose value is a byte vector, seen through the vector's contents.
pub open spec fn step_bytes(s: Step<Vec<u8>>) -> Step<Seq<u8>> {
    match s {
        Step::Value(v) => Step::Value(v@),
        Step::Fail(e) => Step::Fail(e),
        Step::Panic => Step::Panic,
    }
}

pub open spec fn step_opt_bytes(s: Step<Option<Vec<u8>>>) -> Step<Option<Seq<u8>>> {
    match s {
        Step::Value(v) => Step::Value(opt_bytes(v)),
        Step::Fail(e) => Step::Fail(e),
        Step::Panic => Step::Panic,
    }
}

pub open spec fn step_record(s: Step<EopRecord>) -> Step<EopValues> {
    match s {
        Step::Value(v) => Step::Value(v@),
        Step::Fail(e) => Step::Fail(e),
        Step::Panic => Step::Panic,
    }
}

/// Copy of the bytes `s[a..b]`.
fn copy_bytes(s: &[u8], a: usize, b: usize) -> (v: Vec<u8>)
    requires
        a <= b <= s.len(),
    ensures
        v@ == s@.subrange(a as int, b as int),
{
    let mut v: Vec<u8> = Vec::new();
    let mut i = a;
    while i < b
        invariant
            a <= i <= b <= s.len(),
            v@ == s@.subrange(a as int, i as int),
        decreases b - i,
    {
        v.push(s[i]);
        i = i + 1;
        assert(v@ =~= s@.subrange(a as int, i as int));
    }
    v
}

fn read_u32_field(l: &[u8], a: usize, b: usize, field: EopField) -> (r: Step<u32>)
    ensures
        r == u32_field_spec(l@, a as int, b as int, field),
{
    if !slice_ok_exec(l, a, b) {
        return Step::Panic;
    }
    let (ta, tb) = trim_range(l, a, b);
    match parse_u32_range(l, ta, tb) {
        Ok(v) => Step::Value(v),
        Err(e) => Step::Fail(EopLineError::Field { field, start: a, end: b, cause: e }),
    }
}

fn read_f64_field(l: &[u8], a: usize, b: usize, qa: usize, field: EopField) -> (r: Step<Vec<u8>>)
    ensures
        step_bytes(r) == f64_field_quoting(l@, a as int, b as int, qa as int, field),
{
    if !slice_ok_exec(l, a, b) {
        return Step::Panic;
    }
    let (ta, tb) = trim_range(l, a, b);
    match check_f64_range(l, ta, tb) {
        Ok(()) => Step::Value(copy_bytes(l, ta, tb)),
        Err(e) => {
            if !slice_ok_exec(l, qa, b) {
                Step::Panic
            } else {
                Step::Fail(EopLineError::Field { field, start: qa, end: b, cause: e })
            }
        },
    }
}

fn read_opt_f64_field(l: &[u8], a: usize, b: usize) -> (r: Step<Option<Vec<u8>>>)
    ensures
        step_opt_bytes(r) == opt_f64_field_spec(l@, a as int, b as int),
{
    if !slice_ok_exec(l, a, b) {
        return Step::Panic;
    }
    let (ta, tb) = trim_range(l, a, b);
    match check_f64_range(l, ta, tb) {
        Ok(()) => Step::Value(Some(copy_bytes(l, ta, tb))),
        Err(_) => Step::Value(None),
    }
}

/// Reads one C04 line given as bytes.
fn c04_line_step(l: &[u8]) -> (r: Step<EopRecord>)
    ensures
        step_record(r) == c04_line_spec(l@),
{
    let mjd = match read_u32_field(l, 12, 19, EopField::Mjd) {
        Step::Value(v) => v,
        Step::Fail(e) => return Step::Fail(e),
        Step::Panic => return Step::Panic,
    };
    let pm_x = match read_f64_field(l, 19, 30, 19, EopField::PmX) {
        Step::Value(v) => v,
        Step::Fail(e) => return Step::Fail(e),
        Step::Panic => return Step::Panic,
    };
    let pm_y = match read_f64_field(l, 30, 41, 30, EopField::PmY) {
        Step::Value(v) => v,
        Step::Fail(e) => return Step::Fail(e),
        Step::Panic => return Step::Panic,
    };
    let ut1_utc = match read_f64_field(l, 41, 53, 41, EopField::Ut1Utc) {
        Step::Value(v) => v,
        Step::Fail(e) => return Step::Fail(e),
        Step::Panic => return Step::Panic,
    };
    let lod = match read_f64_field(l, 53, 65, 53, EopField::Lod) {
        Step::Value(v) => v,
        Step::Fail(e) => return Step::Fail(e),
        Step::Panic => return Step::Panic,
    };
    let dx = match read_f64_field(l, 65, 76, 65, EopField::DX) {
        Step::Value(v) => v,
        Step::Fail(e) => return Step::Fail(e),
        Step::Panic => return Step::Panic,
    };
    let dy = match read_f64_field(l, 76, 87, 76, EopField::DY) {
        Step::Value(v) => v,
        Step::Fail(e) => return Step::Fail(e),
        Step::Panic => return Step::Panic,
    };
    Step::Value(EopRecord { mjd, pm_x, pm_y, ut1_utc, dx: Some(dx), dy: Some(dy), lod: Some(lod) })
}

fn bulletin_a_step(l: &[u8], mjd: u32) -> (r: Step<EopRecord>)
    ensures
        step_record(r) == bulletin_a_spec(l@, mjd),
{
    let pm_x = match read_f64_field(l, 17, 27, 18, EopField::PmX) {
        Step::Value(v) => v,
        Step::Fail(e) => return Step::Fail(e),
        Step::Panic => return Step::Panic,
    };
    let pm_y = match read_f64_field(l, 37, 46, 37, EopField::PmY) {
        Step::Value(v) => v,
        Step::Fail(e) => return Step::Fail(e),
        Step::Panic => return Step::Panic,
    };
    let ut1_utc = match read_f64_field(l, 58, 68, 58, EopField::Ut1Utc) {
        Step::Value(v) => v,
        Step::Fail(e) => return Step::Fail(e),
        Step::Panic => return Step::Panic,
    };
    let lod = match read_opt_f64_field(l, 78, 86) {
        Step::Value(v) => v,
        Step::Fail(e) => return Step::Fail(e),
        Step::Panic => return Step::Panic,
    };
    let dx = match read_opt_f64_field(l, 97, 106) {
        Step::Value(v) => v,
        Step::Fail(e) => return Step::Fail(e),
        Step::Panic => return Step::Panic,
    };
    let dy = match read_opt_f64_field(l, 116, 125) {
        Step::Value(v) => v,
        Step::Fail(e) => return Step::Fail(e),
        Step::Panic => return Step::Panic,
    };
    Step::Value(EopRecord { mjd, pm_x, pm_y, ut1_utc, dx, dy, lod })
}

fn bulletin_b_step(l: &[u8], mjd: u32) -> (r: Step<EopRecord>)
    ensures
        step_record(r) == bulletin_b_spec(l@, mjd),
{
    let pm_x = match read_f64_field(l, 134, 144, 134, EopField::PmX) {
        Step::Value(v) => v,
        Step::Fail(e) => return Step::Fail(e),
        Step::Panic => return Step::Panic,
    };
    let pm_y = match read_f64_field(l, 144, 154, 144, EopField::PmY) {
        Step::Value(v) => v,
        Step::Fail(e) => return Step::Fail(e),
        Step::Panic => return Step::Panic,
    };
    let ut1_utc = match read_f64_field(l, 154, 165, 154, EopField::Ut1Utc) {
        Step::Value(v) => v,
        Step::Fail(e) => return Step::Fail(e),
        Step::Panic => return Step::Panic,
    };
    let dx = match read_f64_field(l, 165, 175, 165, EopField::DX) {
        Step::Value(v) => v,
        Step::Fail(e) => return Step::Fail(e),
        Step::Panic => return Step::Panic,
    };
    let dy = match read_f64_field(l, 175, 185, 175, EopField::DY) {
        Step::Value(v) => v,
        Step::Fail(e) => return Step::Fail(e),
        Step::Panic => return Step::Panic,
    };
    let zero: Vec<u8> = vec![48u8, 46u8, 48u8];
    assert(zero@ =~= zero_text());
    Step::Value(
        EopRecord { mjd, pm_x, pm_y, ut1_utc, dx: Some(dx), dy: Some(dy), lod: Some(zero) },
    )
}

/// Reads one standard-file line given as bytes.
fn standard_line_step(l: &[u8], eop_type: EOPType) -> (r: Step<EopRecord>)
    ensures
        step_record(r) == standard_line_spec(l@, eop_type),
{
    if l.len() < 68 {
        return Step::Fail(EopLineError::TooShort);
    }
    let mjd = match read_u32_field(l, 6, 12, EopField::Mjd) {
        Step::Value(v) => v,
        Step::Fail(e) => return Step::Fail(e),
        Step::Panic => return Step::Panic,
    };
    match eop_type {
        EOPType::StandardBulletinA => bulletin_a_step(l, mjd),
        EOPType::StandardBulletinB => bulletin_b_step(l, mjd),
        _ => Step::Fail(EopLineError::InvalidType { eop_type }),
    }
}

/// The result a line parse gives when it does not abort.
pub open spec fn line_result_matches(r: Result<EopRecord, EopLineError>, s: Step<EopValues>) -> bool {
    match s {
        Step::Value(v) => r matches Ok(rec) && rec@ == v,
        Step::Fail(e) => r == Err::<EopRecord, EopLineError>(e),
        Step::Panic => false,
    }
}

/// Parses a line of a C04 EOP file into its record: the MJD and the seven
/// parameter texts, or the first field that fails to parse.
pub fn parse_c04_line(line: &str) -> (r: Result<EopRecord, EopLineError>)
    requires
        !(c04_line_spec(line.spec_bytes()) is Panic),
    ensures
        line_result_matches(r, c04_line_spec(line.spec_bytes())),
{
    match c04_line_step(line.as_bytes()) {
        Step::Value(rec) => Ok(rec),
        Step::Fail(e) => Err(e),
        Step::Panic => Err(EopLineError::TooShort),
    }
}

/// Parses a line of a standard (finals2000) EOP file for the given bulletin.
/// Bulletin A's LOD, dX and dY are absent where their columns do not parse.
pub fn parse_standard_eop_line(line: &str, eop_type: EOPType) -> (r: Result<
    EopRecord,
    EopLineError,
>)
    requires
        !(standard_line_spec(line.spec_bytes(), eop_type) is Panic),
    ensures
        line_result_matches(r, standard_line_spec(line.spec_bytes(), eop_type)),
{
    match standard_line_step(line.as_bytes(), eop_type) {
        Step::Value(rec) => Ok(rec),
        Step::Fail(e) => Err(e),
        Step::Panic => Err(EopLineError::TooShort),
    }
}


/// Name of a record field as messages give it.
pub open spec fn field_name(f: EopField) -> Seq<char> {
    match f {
        EopField::Mjd => "mjd"@,
        EopField::PmX => "pm_x"@,
        EopField::PmY => "pm_y"@,
        EopField::Ut1Utc => "ut1_utc"@,
        EopField::Lod => "lod"@,
        EopField::DX => "dX"@,
        EopField::DY => "dY"@,
    }
}

/// Text of a number parse failure, as the standard library's parse errors display it.
pub open spec fn cause_text(c: NumberError) -> Seq<char> {
    match c {
        NumberError::IntEmpty => "cannot parse integer from empty string"@,
        NumberError::IntInvalidDigit => "invalid digit found in string"@,
        NumberError::IntPosOverflow => "number too large to fit in target type"@,
        NumberError::FloatEmpty => "cannot parse float from empty string"@,
        NumberError::FloatInvalid => "invalid float literal"@,
    }
}

/// Message of a rejected line `l`: a field error quotes the bytes of the line it names.
pub open spec fn line_error_text(l: Seq<u8>, e: EopLineError) -> Seq<char> {
    match e {
        EopLineError::Field { field, start, end, cause } => "Failed to parse "@ + field_name(field)
            + " from '"@ + vstd::utf8::decode_utf8(l.subrange(start as int, end as int)) + "': "@
            + cause_text(cause),
        EopLineError::InvalidType { eop_type } => "Invalid EOPType for standard parsing: "@
            + eop_type_display(eop_type),
        EopLineError::TooShort => "Unable to parse line. Line too short."@,
    }
}

/// The error's quoted range can be cut out of the line `l`.
pub open spec fn error_quotable(l: Seq<u8>, e: EopLineError) -> bool {
    e matches EopLineError::Field { start, end, .. } ==> slice_ok(l, start as int, end as int)
}

fn field_name_str(f: EopField) -> (r: &'static str)
    ensures
        r@ == field_name(f),
{
    match f {
        EopField::Mjd => "mjd",
        EopField::PmX => "pm_x",
        EopField::PmY => "pm_y",
        EopField::Ut1Utc => "ut1_utc",
        EopField::Lod => "lod",
        EopField::DX => "dX",
        EopField::DY => "dY",
    }
}

fn cause_str(c: NumberError) -> (r: &'static str)
    ensures
        r@ == cause_text(c),
{
    match c {
        NumberError::IntEmpty => "cannot parse integer from empty string",
        NumberError::IntInvalidDigit => "invalid digit found in string",
        NumberError::IntPosOverflow => "number too large to fit in target type",
        NumberError::FloatEmpty => "cannot parse float from empty string",
        NumberError::FloatInvalid => "invalid float literal",
    }
}

/// The part of `line` at bytes `a..b`.
fn line_part(line: &str, a: usize, b: usize) -> (t: &str)
    requires
        slice_ok(line.spec_bytes(), a as int, b as int),
    ensures
        t@ == vstd::utf8::decode_utf8(line.spec_bytes().subrange(a as int, b as int)),
{
    broadcast use vstd::utf8::group_utf8_lib;

    let ghost l = line.spec_bytes();
    proof {
        vstd::utf8::encode_utf8_valid_utf8(line@);
        vstd::utf8::is_char_boundary_start_end_of_seq(l);
        if 0 < a < l.len() {
            vstd::utf8::is_char_boundary_iff_not_is_continuation_byte(l, a as int);
        }
    }
    let (_, rest) = line.split_at(a);
    let ghost r = rest.spec_bytes();
    assert(r =~= l.subrange(a as int, l.len() as int));
    proof {
        vstd::utf8::encode_utf8_valid_utf8(rest@);
        vstd::utf8::is_char_boundary_start_end_of_seq(r);
        if 0 < b - a < r.len() {
            assert(r[b - a] == l[b as int]);
            vstd::utf8::is_char_boundary_iff_not_is_continuation_byte(r, (b - a) as int);
        }
    }
    let (part, _) = rest.split_at(b - a);
    assert(part.spec_bytes() =~= l.subrange(a as int, b as int));
    proof {
        vstd::utf8::encode_utf8_decode_utf8(part@);
    }
    part
}

/// Message of a rejected line, as loading reports it.
pub fn line_error_message(line: &str, e: EopLineError) -> (m: String)
    requires
        error_quotable(line.spec_bytes(), e),
    ensures
        m@ == line_error_text(line.spec_bytes(), e),
{
    match e {
        EopLineError::Field { field, start, end, cause } => {
            let mut m = String::from_str("Failed to parse ");
            m.append(field_name_str(field));
            m.append(" from '");
            m.append(line_part(line, start, end));
            m.append("': ");
            m.append(cause_str(cause));
            m
        },
        EopLineError::InvalidType { eop_type } => {
            let mut m = String::from_str("Invalid EOPType for standard parsing: ");
            let t = eop_type.to_string();
            m.append(t.as_str());
            m
        },
        EopLineError::TooShort => String::from_str("Unable to parse line. Line too short."),
    }
}

/// Whether `line_error_message` can quote the error's range of `line`.
pub fn error_is_quotable(line: &str, e: EopLineError) -> (b: bool)
    ensures
        b == error_quotable(line.spec_bytes(), e),
{
    match e {
        EopLineError::Field { start, end, .. } => slice_ok_exec(line.as_bytes(), start, end),
        _ => true,
    }
}

/// Decimal digits of `n`.
pub open spec fn decimal_text(n: nat) -> Seq<char>
    decreases n,
{
    if n < 10 {
        seq![(48 + n) as char]
    } else {
        decimal_text(n / 10) + seq![(48 + n % 10) as char]
    }
}

fn digit_str(d: usize) -> (r: &'static str)
    requires
        d < 10,
    ensures
        r@ == seq![(48 + d) as char],
{
    proof {
        reveal_strlit("0");
        reveal_strlit("1");
        reveal_strlit("2");
        reveal_strlit("3");
        reveal_strlit("4");
        reveal_strlit("5");
        reveal_strlit("6");
        reveal_strlit("7");
        reveal_strlit("8");
        reveal_strlit("9");
    }
    let r = if d == 0 {
        "0"
    } else if d == 1 {
        "1"
    } else if d == 2 {
        "2"
    } else if d == 3 {
        "3"
    } else if d == 4 {
        "4"
    } else if d == 5 {
        "5"
    } else if d == 6 {
        "6"
    } else if d == 7 {
        "7"
    } else if d == 8 {
        "8"
    } else {
        "9"
    };
    assert(r@ =~= seq![(48 + d) as char]);
    r
}

/// `n` written in decimal.
pub fn decimal_string(n: usize) -> (s: String)
    ensures
        s@ == decimal_text(n as nat),
    decreases n,
{
    if n < 10 {
        String::from_str(digit_str(n))
    } else {
        let mut s = decimal_string(n / 10);
        s.append(digit_str(n % 10));
        s
    }
}

/// Message of a loading stopped by a rejected line: the line number (from 0) and the line's message.
pub open spec fn file_line_error_text(lineno: usize, l: Seq<u8>, e: EopLineError) -> Seq<char> {
    "Failed to parse EOP file on line "@ + decimal_text(lineno as nat) + ": "@ + line_error_text(l, e)
}

/// Message of a loading stopped at line `lineno` (counted from 0) by the rejected line `line`.
pub fn file_line_error_message(lineno: usize, line: &str, e: EopLineError) -> (m: String)
    requires
        error_quotable(line.spec_bytes(), e),
    ensures
        m@ == file_line_error_text(lineno, line.spec_bytes(), e),
{
    let mut m = String::from_str("Failed to parse EOP file on line ");
    let n = decimal_string(lineno);
    m.append(n.as_str());
    m.append(": ");
    let t = line_error_message(line, e);
    m.append(t.as_str());
    m
}

/// Why loading an EOP file stopped.
#[derive(Debug, Clone, Copy, PartialEq, Eq, Structural)]
pub enum EopFileError {
    /// Line `lineno` (counted from 0) could not be read from the source.
    Read { lineno: usize },
    /// Line `lineno` (counted from 0) was rejected.
    Line { lineno: usize, error: EopLineError },
}

/// State of loading a file line by line.
pub enum ScanState {
    Running(Map<u32, EopValues>),
    Stopped(EopFileError),
    Panic,
}

/// Adds a record read from the file; it replaces any earlier record with the same MJD.
pub open spec fn scan_add(d: Map<u32, EopValues>, r: EopValues) -> Map<u32, EopValues> {
    d.insert(r.mjd, r)
}

/// Number of header lines at the start of a C04 file.
pub open spec fn c04_header_lines() -> int {
    14
}

/// Effect of line `lineno` of a C04 file: header lines are skipped; any
/// other line must be readable and parse, else loading stops there.
pub open spec fn c04_scan_step(st: Map<u32, EopValues>, lineno: int, line: Option<Seq<u8>>) -> ScanState {
    if lineno < c04_header_lines() {
        ScanState::Running(st)
    } else {
        match line {
            None => ScanState::Stopped(EopFileError::Read { lineno: lineno as usize }),
            Some(l) => match c04_line_spec(l) {
                Step::Value(r) => ScanState::Running(scan_add(st, r)),
                Step::Fail(e) => ScanState::Stopped(
                    EopFileError::Line { lineno: lineno as usize, error: e },
                ),
                Step::Panic => ScanState::Panic,
            },
        }
    }
}

/// Loading the lines of a C04 file in order.
pub open spec fn c04_scan(lines: Seq<Option<Seq<u8>>>) -> ScanState
    decreases lines.len(),
{
    if lines.len() == 0 {
        ScanState::Running(Map::empty())
    } else {
        match c04_scan(lines.drop_last()) {
            ScanState::Running(st) => c04_scan_step(st, lines.len() - 1, lines.last()),
            other => other,
        }
    }
}

/// Effect of line `lineno` of a standard file: an unreadable line stops
/// loading; a line that does not parse is skipped.
pub open spec fn standard_scan_step(
    st: Map<u32, EopValues>,
    lineno: int,
    line: Option<Seq<u8>>,
    eop_type: EOPType,
) -> ScanState {
    match line {
        None => ScanState::Stopped(EopFileError::Read { lineno: lineno as usize }),
        Some(l) => match standard_line_spec(l, eop_type) {
            Step::Value(r) => ScanState::Running(scan_add(st, r)),
            Step::Fail(_) => ScanState::Running(st),
            Step::Panic => ScanState::Panic,
        },
    }
}

/// Loading the lines of a standard file in order.
pub open spec fn standard_scan(lines: Seq<Option<Seq<u8>>>, eop_type: EOPType) -> ScanState
    decreases lines.len(),
{
    if lines.len() == 0 {
        ScanState::Running(Map::empty())
    } else {
        match standard_scan(lines.drop_last(), eop_type) {
            ScanState::Running(st) => standard_scan_step(st, lines.len() - 1, lines.last(), eop_type),
            other => other,
        }
    }
}

/// The UTF-8 bytes of a string.
pub open spec fn string_bytes(s: String) -> Seq<u8> {
    vstd::utf8::encode_utf8(s@)
}

/// The bytes of each line that was read; `None` for a line that could not be read.
pub open spec fn lines_bytes(lines: Seq<Option<String>>) -> Seq<Option<Seq<u8>>> {
    lines.map_values(
        |o: Option<String>|
            match o {
                Some(s) => Some(string_bytes(s)),
                None => None,
            },
    )
}

/// Loaded Earth orientation data: the records keyed by MJD with the settings
/// and date bookkeeping that lookups use.
pub struct EopTable {
    /// Kind of data loaded.
    pub eop_type: EOPType,
    /// Records by Modified Julian Date.
    pub data: HashMap<u32, EopRecord>,
    /// Behavior for lookups past the end of the data.
    pub extrapolate: EOPExtrapolation,
    /// Whether lookups between data points interpolate.
    pub interpolate: bool,
    /// Smallest MJD loaded (0 when nothing was loaded).
    pub mjd_min: u32,
    /// Largest MJD loaded (0 when nothing was loaded).
    pub mjd_max: u32,
    /// Largest MJD whose record has a LOD value (Bulletin A); `mjd_max` for C04; 0 for Bulletin B.
    pub mjd_last_lod: u32,
    /// Largest MJD whose record has dX and dY; `mjd_max` for C04.
    pub mjd_last_dxdy: u32,
}

/// The stored records are exactly `d`.
pub open spec fn data_is(m: Map<u32, EopRecord>, d: Map<u32, EopValues>) -> bool {
    &&& m.dom() == d.dom()
    &&& forall|k: u32| #[trigger] m.contains_key(k) ==> m[k]@ == d[k]
}

/// The record at `k` in `d` carries quantity `q`.
pub open spec fn carries(d: Map<u32, EopValues>, k: u32, q: EopQuantity) -> bool {
    d.contains_key(k) && has_quantity(d[k], q)
}

/// `v` is the largest date of `d` whose record carries `q`, or 0 when no record does.
pub open spec fn is_last_date(d: Map<u32, EopValues>, q: EopQuantity, v: u32) -> bool {
    &&& forall|k: u32| #[trigger] carries(d, k, q) ==> k <= v
    &&& (carries(d, v, q) || (v == 0 && forall|k: u32| !#[trigger] carries(d, k, q)))
}

/// `v` is the smallest date of `d`, or 0 when `d` is empty.
pub open spec fn is_first_date(d: Map<u32, EopValues>, v: u32) -> bool {
    &&& forall|k: u32| #[trigger] d.contains_key(k) ==> v <= k
    &&& (d.contains_key(v) || (v == 0 && forall|k: u32| !#[trigger] d.contains_key(k)))
}

/// `keys` lists exactly the dates of `d`.
pub open spec fn keys_cover(d: Map<u32, EopValues>, keys: Seq<u32>) -> bool {
    &&& forall|k: u32| #[trigger] d.contains_key(k) ==> keys.contains(k)
    &&& forall|j: int| 0 <= j < keys.len() ==> d.contains_key(#[trigger] keys[j])
}

/// Every record carries polar motion and UT1-UTC, so their last date is
/// the largest date of the data: every date is at most it, and it is a date
/// of the data unless the data are empty (then it is 0).
pub proof fn lemma_last_date_is_largest(d: Map<u32, EopValues>, v: u32)
    requires
        is_last_date(d, EopQuantity::PolarMotion, v) || is_last_date(d, EopQuantity::Ut1Utc, v),
    ensures
        forall|k: u32| #[trigger] d.contains_key(k) ==> k <= v,
        d.contains_key(v) || (v == 0 && d == Map::<u32, EopValues>::empty()),
{
    assert forall|k: u32| #[trigger] d.contains_key(k) implies k <= v by {
        assert(carries(d, k, EopQuantity::PolarMotion) && carries(d, k, EopQuantity::Ut1Utc));
    }
    if !d.contains_key(v) {
        assert(!carries(d, v, EopQuantity::PolarMotion) && !carries(d, v, EopQuantity::Ut1Utc));
        assert forall|k: u32| !#[trigger] d.contains_key(k) by {
            assert(!carries(d, k, EopQuantity::PolarMotion) || !carries(d, k, EopQuantity::Ut1Utc));
        }
        assert(d =~= Map::<u32, EopValues>::empty());
    }
}

/// A record carries dX/dY exactly when both values are present, and LOD
/// exactly when a LOD value is present.
pub proof fn lemma_optional_quantities(r: EopValues)
    ensures
        has_quantity(r, EopQuantity::DxDy) <==> (r.dx is Some && r.dy is Some),
        has_quantity(r, EopQuantity::Lod) <==> r.lod is Some,
{
}

/// Whether the record carries quantity `q`.
fn record_has(r: &EopRecord, q: EopQuantity) -> (b: bool)
    ensures
        b == has_quantity(r@, q),
{
    match q {
        EopQuantity::DxDy => r.dx.is_some() && r.dy.is_some(),
        EopQuantity::Lod => r.lod.is_some(),
        _ => true,
    }
}

/// Largest date of the table whose record carries `q` (0 when none does).
fn last_date(data: &HashMap<u32, EopRecord>, keys: &Vec<u32>, q: EopQuantity, Ghost(d): Ghost<
    Map<u32, EopValues>,
>) -> (v: u32)
    requires
        data_is(data@, d),
        keys_cover(d, keys@),
    ensures
        is_last_date(d, q, v),
{
    let mut v: u32 = 0;
    let mut found = false;
    let mut i: usize = 0;
    while i < keys.len()
        invariant
            i <= keys.len(),
            data_is(data@, d),
            keys_cover(d, keys@),
            found ==> carries(d, v, q),
            !found ==> v == 0,
            forall|j: int| 0 <= j < i ==> (#[trigger] carries(d, keys@[j], q) ==> found && keys@[j]
                <= v),
        decreases keys.len() - i,
    {
        let k = keys[i];
        assert(d.contains_key(keys@[i as int]));
        let rec = data.get(&k).unwrap();
        if record_has(rec, q) && (!found || k > v) {
            v = k;
            found = true;
        }
        i = i + 1;
    }
    assert forall|k: u32| #[trigger] carries(d, k, q) implies k <= v by {
        assert(keys@.contains(k));
        let j = choose|j: int| 0 <= j < keys@.len() && keys@[j] == k;
        assert(carries(d, keys@[j], q));
    }
    if !found {
        assert forall|k: u32| !#[trigger] carries(d, k, q) by {
            if carries(d, k, q) {
                assert(keys@.contains(k));
                let j = choose|j: int| 0 <= j < keys@.len() && keys@[j] == k;
                assert(carries(d, keys@[j], q));
            }
        }
    }
    v
}

/// Smallest date of the table (0 when it is empty).
fn first_date(data: &HashMap<u32, EopRecord>, keys: &Vec<u32>, Ghost(d): Ghost<
    Map<u32, EopValues>,
>) -> (v: u32)
    requires
        data_is(data@, d),
        keys_cover(d, keys@),
    ensures
        is_first_date(d, v),
{
    let mut v: u32 = 0;
    let mut i: usize = 0;
    while i < keys.len()
        invariant
            i <= keys.len(),
            keys_cover(d, keys@),
            i > 0 ==> d.contains_key(v),
            i == 0 ==> v == 0,
            forall|j: int| 0 <= j < i ==> v <= #[trigger] keys@[j],
        decreases keys.len() - i,
    {
        let k = keys[i];
        if i == 0 || k < v {
            v = k;
        }
        i = i + 1;
    }
    assert forall|k: u32| #[trigger] d.contains_key(k) implies v <= k by {
        assert(keys@.contains(k));
        let j = choose|j: int| 0 <= j < keys@.len() && keys@[j] == k;
        assert(v <= keys@[j]);
    }
    if i == 0 {
        assert forall|k: u32| !#[trigger] d.contains_key(k) by {
            if d.contains_key(k) {
                assert(keys@.contains(k));
            }
        }
    }
    v
}

/// Once loading has stopped or aborted on a prefix, the whole input ends the same way.
proof fn lemma_c04_scan_sticky(lines: Seq<Option<Seq<u8>>>, k: int)
    requires
        0 <= k <= lines.len(),
        !(c04_scan(lines.take(k)) is Running),
    ensures
        c04_scan(lines) == c04_scan(lines.take(k)),
    decreases lines.len() - k,
{
    if k < lines.len() {
        assert(lines.take(k + 1).drop_last() =~= lines.take(k));
        lemma_c04_scan_sticky(lines, k + 1);
    } else {
        assert(lines.take(k) =~= lines);
    }
}

proof fn lemma_standard_scan_sticky(lines: Seq<Option<Seq<u8>>>, k: int, eop_type: EOPType)
    requires
        0 <= k <= lines.len(),
        !(standard_scan(lines.take(k), eop_type) is Running),
    ensures
        standard_scan(lines, eop_type) == standard_scan(lines.take(k), eop_type),
    decreases lines.len() - k,
{
    if k < lines.len() {
        assert(lines.take(k + 1).drop_last() =~= lines.take(k));
        lemma_standard_scan_sticky(lines, k + 1, eop_type);
    } else {
        assert(lines.take(k) =~= lines);
    }
}

/// Bytes of line `i`, if it was read.
fn line_at(lines: &Vec<Option<String>>, i: usize) -> (r: Option<&[u8]>)
    requires
        i < lines.len(),
    ensures
        match r {
            Some(b) => lines_bytes(lines@)[i as int] == Some(b@),
            None => lines_bytes(lines@)[i as int] is None,
        },
{
    match &lines[i] {
        Some(s) => Some(s.as_str().as_bytes()),
        None => None,
    }
}

/// Whether loading these C04 lines would abort on a line too short to slice.
pub fn c04_lines_panic(lines: &Vec<Option<String>>) -> (b: bool)
    ensures
        b == (c04_scan(lines_bytes(lines@)) is Panic),
{
    let ghost ls = lines_bytes(lines@);
    let mut i: usize = 0;
    assert(ls.take(0) =~= Seq::<Option<Seq<u8>>>::empty());
    while i < lines.len()
        invariant
            i <= lines.len(),
            ls == lines_bytes(lines@),
            ls.len() == lines.len(),
            c04_scan(ls.take(i as int)) is Running,
        decreases lines.len() - i,
    {
        assert(ls.take(i + 1).drop_last() =~= ls.take(i as int));
        if i >= 14 {
            match line_at(lines, i) {
                None => {
                    proof { lemma_c04_scan_sticky(ls, i + 1); }
                    return false;
                },
                Some(l) => match c04_line_step(l) {
                    Step::Value(_) => {},
                    Step::Fail(_) => {
                        proof { lemma_c04_scan_sticky(ls, i + 1); }
                        return false;
                    },
                    Step::Panic => {
                        proof { lemma_c04_scan_sticky(ls, i + 1); }
                        return true;
                    },
                },
            }
        }
        i = i + 1;
    }
    assert(ls.take(i as int) =~= ls);
    false
}

/// Loads the lines of a C04 file (`None` for a line that could not be read).
/// The first 14 lines are a header and are skipped; every later line must be
/// readable and parse, else loading stops with the first failing line. The
/// table spans its smallest to its largest date, and has LOD and dX/dY
/// through its largest date.
pub fn eop_c04_from_lines(
    lines: &Vec<Option<String>>,
    extrapolate: EOPExtrapolation,
    interpolate: bool,
) -> (r: Result<EopTable, EopFileError>)
    requires
        !(c04_scan(lines_bytes(lines@)) is Panic),
    ensures
        match c04_scan(lines_bytes(lines@)) {
            ScanState::Running(d) => r matches Ok(t) && {
                &&& t.eop_type == EOPType::C04
                &&& data_is(t.data@, d)
                &&& t.extrapolate == extrapolate
                &&& t.interpolate == interpolate
                &&& is_first_date(d, t.mjd_min)
                &&& is_last_date(d, EopQuantity::PolarMotion, t.mjd_max)
                &&& forall|k: u32| #[trigger] d.contains_key(k) ==> k <= t.mjd_max
                &&& (d.contains_key(t.mjd_max) || (t.mjd_max == 0 && d == Map::<u32, EopValues>::empty()))
                &&& t.mjd_last_lod == t.mjd_max
                &&& t.mjd_last_dxdy == t.mjd_max
            },
            ScanState::Stopped(e) => r == Err::<EopTable, EopFileError>(e),
            ScanState::Panic => false,
        },
{
    let ghost ls = lines_bytes(lines@);
    let mut data: HashMap<u32, EopRecord> = HashMap::new();
    let mut keys: Vec<u32> = Vec::new();
    let mut i: usize = 0;
    assert(ls.take(0) =~= Seq::<Option<Seq<u8>>>::empty());
    assert(data_is(data@, Map::<u32, EopValues>::empty()));
    while i < lines.len()
        invariant
            i <= lines.len(),
            ls == lines_bytes(lines@),
            ls.len() == lines.len(),
            !(c04_scan(ls) is Panic),
            c04_scan(ls.take(i as int)) matches ScanState::Running(d) && {
                &&& data_is(data@, d)
                &&& keys_cover(d, keys@)
            },
        decreases lines.len() - i,
    {
        assert(ls.take(i + 1).drop_last() =~= ls.take(i as int));
        if i >= 14 {
            match line_at(lines, i) {
                None => {
                    proof { lemma_c04_scan_sticky(ls, i + 1); }
                    return Err(EopFileError::Read { lineno: i });
                },
                Some(l) => match c04_line_step(l) {
                    Step::Value(rec) => {
                        let ghost d = c04_scan(ls.take(i as int))->Running_0;
                        let ghost rv = rec@;
                        let ghost ks = keys@;
                        let m = rec.mjd;
                        if !data.contains_key(&m) {
                            keys.push(m);
                        }
                        data.insert(m, rec);
                        assert(data_is(data@, scan_add(d, rv)));
                        proof { lemma_keys_cover_add(d, ks, keys@, rv); }
                    },
                    Step::Fail(e) => {
                        proof { lemma_c04_scan_sticky(ls, i + 1); }
                        return Err(EopFileError::Line { lineno: i, error: e });
                    },
                    Step::Panic => {
                        proof { lemma_c04_scan_sticky(ls, i + 1); }
                        assert(false);
                        return Err(EopFileError::Read { lineno: i });
                    },
                },
            }
        }
        i = i + 1;
    }
    assert(ls.take(i as int) =~= ls);
    let ghost d = c04_scan(ls)->Running_0;
    let mjd_min = first_date(&data, &keys, Ghost(d));
    let mjd_max = last_date(&data, &keys, EopQuantity::PolarMotion, Ghost(d));
    proof { lemma_last_date_is_largest(d, mjd_max); }
    Ok(
        EopTable {
            eop_type: EOPType::C04,
            data,
            extrapolate,
            interpolate,
            mjd_min,
            mjd_max,
            mjd_last_lod: mjd_max,
            mjd_last_dxdy: mjd_max,
        },
    )
}

/// Adding a record to the data and, when its date is new, to the key list
/// keeps the list covering the data.
proof fn lemma_keys_cover_add(d: Map<u32, EopValues>, ks: Seq<u32>, ks2: Seq<u32>, r: EopValues)
    requires
        keys_cover(d, ks),
        ks2 == (if d.contains_key(r.mjd) {
            ks
        } else {
            ks.push(r.mjd)
        }),
    ensures
        keys_cover(scan_add(d, r), ks2),
{
    let d2 = scan_add(d, r);
    assert forall|k: u32| #[trigger] d2.contains_key(k) implies ks2.contains(k) by {
        if k == r.mjd && !d.contains_key(r.mjd) {
            assert(ks2[ks.len() as int] == k);
        } else {
            assert(ks.contains(k));
            let j = choose|j: int| 0 <= j < ks.len() && ks[j] == k;
            assert(ks2[j] == k);
        }
    }
    assert forall|j: int| 0 <= j < ks2.len() implies d2.contains_key(#[trigger] ks2[j]) by {
        if j < ks.len() {
            assert(ks2[j] == ks[j]);
            assert(d.contains_key(ks[j]));
        }
    }
}

/// Whether loading these standard-file lines would abort on a line too short to slice.
pub fn standard_lines_panic(lines: &Vec<Option<String>>, eop_type: EOPType) -> (b: bool)
    ensures
        b == (standard_scan(lines_bytes(lines@), eop_type) is Panic),
{
    let ghost ls = lines_bytes(lines@);
    let mut i: usize = 0;
    assert(ls.take(0) =~= Seq::<Option<Seq<u8>>>::empty());
    while i < lines.len()
        invariant
            i <= lines.len(),
            ls == lines_bytes(lines@),
            ls.len() == lines.len(),
            standard_scan(ls.take(i as int), eop_type) is Running,
        decreases lines.len() - i,
    {
        assert(ls.take(i + 1).drop_last() =~= ls.take(i as int));
        match line_at(lines, i) {
            None => {
                proof { lemma_standard_scan_sticky(ls, i + 1, eop_type); }
                return false;
            },
            Some(l) => match standard_line_step(l, eop_type) {
                Step::Panic => {
                    proof { lemma_standard_scan_sticky(ls, i + 1, eop_type); }
                    return true;
                },
                _ => {},
            },
        }
        i = i + 1;
    }
    assert(ls.take(i as int) =~= ls);
    false
}

/// Loads the lines of a standard (finals2000) file for the given bulletin
/// (`None` for a line that could not be read). Lines that do not parse are
/// skipped; an unreadable line stops loading. The table spans its smallest
/// to its largest date; `mjd_last_dxdy` is the largest date with dX and dY,
/// and `mjd_last_lod` the largest date with LOD in Bulletin A data (0 for
/// other data).
pub fn eop_standard_eop_from_lines(
    lines: &Vec<Option<String>>,
    extrapolate: EOPExtrapolation,
    interpolate: bool,
    eop_type: EOPType,
) -> (r: Result<EopTable, EopFileError>)
    requires
        !(standard_scan(lines_bytes(lines@), eop_type) is Panic),
    ensures
        match standard_scan(lines_bytes(lines@), eop_type) {
            ScanState::Running(d) => r matches Ok(t) && {
                &&& t.eop_type == eop_type
                &&& data_is(t.data@, d)
                &&& t.extrapolate == extrapolate
                &&& t.interpolate == interpolate
                &&& is_first_date(d, t.mjd_min)
                &&& is_last_date(d, EopQuantity::PolarMotion, t.mjd_max)
                &&& forall|k: u32| #[trigger] d.contains_key(k) ==> k <= t.mjd_max
                &&& (d.contains_key(t.mjd_max) || (t.mjd_max == 0 && d == Map::<u32, EopValues>::empty()))
                &&& is_last_date(d, EopQuantity::DxDy, t.mjd_last_dxdy)
                &&& eop_type == EOPType::StandardBulletinA ==> is_last_date(d, EopQuantity::Lod, t.mjd_last_lod)
                &&& eop_type != EOPType::StandardBulletinA ==> t.mjd_last_lod == 0
            },
            ScanState::Stopped(e) => r == Err::<EopTable, EopFileError>(e),
            ScanState::Panic => false,
        },
{
    let ghost ls = lines_bytes(lines@);
    let mut data: HashMap<u32, EopRecord> = HashMap::new();
    let mut keys: Vec<u32> = Vec::new();
    let mut i: usize = 0;
    assert(ls.take(0) =~= Seq::<Option<Seq<u8>>>::empty());
    assert(data_is(data@, Map::<u32, EopValues>::empty()));
    while i < lines.len()
        invariant
            i <= lines.len(),
            ls == lines_bytes(lines@),
            ls.len() == lines.len(),
            !(standard_scan(ls, eop_type) is Panic),
            standard_scan(ls.take(i as int), eop_type) matches ScanState::Running(d) && {
                &&& data_is(data@, d)
                &&& keys_cover(d, keys@)
            },
        decreases lines.len() - i,
    {
        assert(ls.take(i + 1).drop_last() =~= ls.take(i as int));
        match line_at(lines, i) {
            None => {
                proof { lemma_standard_scan_sticky(ls, i + 1, eop_type); }
                return Err(EopFileError::Read { lineno: i });
            },
            Some(l) => match standard_line_step(l, eop_type) {
                Step::Value(rec) => {
                    let ghost d = standard_scan(ls.take(i as int), eop_type)->Running_0;
                    let ghost rv = rec@;
                    let ghost ks = keys@;
                    let m = rec.mjd;
                    if !data.contains_key(&m) {
                        keys.push(m);
                    }
                    data.insert(m, rec);
                    assert(data_is(data@, scan_add(d, rv)));
                    proof { lemma_keys_cover_add(d, ks, keys@, rv); }
                },
                Step::Fail(_) => {},
                Step::Panic => {
                    proof { lemma_standard_scan_sticky(ls, i + 1, eop_type); }
                    assert(false);
                    return Err(EopFileError::Read { lineno: i });
                },
            },
        }
        i = i + 1;
    }
    assert(ls.take(i as int) =~= ls);
    let ghost d = standard_scan(ls, eop_type)->Running_0;
    let mjd_min = first_date(&data, &keys, Ghost(d));
    let mjd_max = last_date(&data, &keys, EopQuantity::PolarMotion, Ghost(d));
    proof { lemma_last_date_is_largest(d, mjd_max); }
    let mjd_last_dxdy = last_date(&data, &keys, EopQuantity::DxDy, Ghost(d));
    let mjd_last_lod = if eop_type == EOPType::StandardBulletinA {
        last_date(&data, &keys, EopQuantity::Lod, Ghost(d))
    } else {
        0
    };
    Ok(
        EopTable {
            eop_type,
            data,
            extrapolate,
            interpolate,
            mjd_min,
            mjd_max,
            mjd_last_lod,
            mjd_last_dxdy,
        },
    )
}


/// The extrapolation setting a name selects: `"Hold"`, `"Zero"` or `"Error"`.
pub open spec fn extrapolation_named(s: Seq<char>) -> Option<EOPExtrapolation> {
    if s == "Hold"@ {
        Some(EOPExtrapolation::Hold)
    } else if s == "Zero"@ {
        Some(EOPExtrapolation::Zero)
    } else if s == "Error"@ {
        Some(EOPExtrapolation::Error)
    } else {
        None
    }
}

/// Short name of an extrapolation setting.
pub open spec fn extrapolation_name(e: EOPExtrapolation) -> Seq<char> {
    match e {
        EOPExtrapolation::Hold => "Hold"@,
        EOPExtrapolation::Zero => "Zero"@,
        EOPExtrapolation::Error => "Error"@,
    }
}

/// The data type a name selects: `"C04"`, `"StandardBulletinA"`,
/// `"StandardBulletinB"` or `"Static"`.
pub open spec fn eop_type_named(s: Seq<char>) -> Option<EOPType> {
    if s == "C04"@ {
        Some(EOPType::C04)
    } else if s == "StandardBulletinA"@ {
        Some(EOPType::StandardBulletinA)
    } else if s == "StandardBulletinB"@ {
        Some(EOPType::StandardBulletinB)
    } else if s == "Static"@ {
        Some(EOPType::Static)
    } else {
        None
    }
}

/// Short name of a data type.
pub open spec fn eop_type_name(t: EOPType) -> Seq<char> {
    match t {
        EOPType::C04 => "C04"@,
        EOPType::StandardBulletinA => "StandardBulletinA"@,
        EOPType::StandardBulletinB => "StandardBulletinB"@,
        EOPType::Static => "Static"@,
    }
}

/// Reads an extrapolation setting from its name; any other text is refused
/// with `Unknown EOP Extrapolation string "<text>"`.
pub fn string_to_eop_extrapolation(s: &str) -> (r: Result<EOPExtrapolation, String>)
    ensures
        r matches Ok(e) ==> extrapolation_display(e) == "EOPExtrapolation::"@ + s@,
        match extrapolation_named(s@) {
            Some(e) => r == Ok::<EOPExtrapolation, String>(e),
            None => r matches Err(m) && m@ == "Unknown EOP Extrapolation string \""@ + s@ + "\""@,
        },
{
    if str_is(s, "Hold") {
        proof { lemma_extrapolation_name_is_variant(EOPExtrapolation::Hold, s@); }
        Ok(EOPExtrapolation::Hold)
    } else if str_is(s, "Zero") {
        proof { lemma_extrapolation_name_is_variant(EOPExtrapolation::Zero, s@); }
        Ok(EOPExtrapolation::Zero)
    } else if str_is(s, "Error") {
        proof { lemma_extrapolation_name_is_variant(EOPExtrapolation::Error, s@); }
        Ok(EOPExtrapolation::Error)
    } else {
        Err(enclose("Unknown EOP Extrapolation string \"", s, "\""))
    }
}

/// Short name of an extrapolation setting: `"Hold"`, `"Zero"` or `"Error"`.
pub fn eop_extrapolation_to_string(extrapolation: EOPExtrapolation) -> (r: String)
    ensures
        extrapolation_display(extrapolation) == "EOPExtrapolation::"@ + r@,
        r@ == extrapolation_name(extrapolation),
{
    proof { lemma_extrapolation_name_is_variant(extrapolation, Seq::empty()); }
    match extrapolation {
        EOPExtrapolation::Hold => String::from_str("Hold"),
        EOPExtrapolation::Zero => String::from_str("Zero"),
        EOPExtrapolation::Error => String::from_str("Error"),
    }
}

/// Reads a data type from its name; any other text is refused with
/// `Unknown EOP Type string "<text>"`.
pub fn string_to_eop_type(s: &str) -> (r: Result<EOPType, String>)
    ensures
        match eop_type_named(s@) {
            Some(t) => r == Ok::<EOPType, String>(t),
            None => r matches Err(m) && m@ == "Unknown EOP Type string \""@ + s@ + "\""@,
        },
{
    if str_is(s, "C04") {
        Ok(EOPType::C04)
    } else if str_is(s, "StandardBulletinA") {
        Ok(EOPType::StandardBulletinA)
    } else if str_is(s, "StandardBulletinB") {
        Ok(EOPType::StandardBulletinB)
    } else if str_is(s, "Static") {
        Ok(EOPType::Static)
    } else {
        Err(enclose("Unknown EOP Type string \"", s, "\""))
    }
}

/// Short name of a data type: `"C04"`, `"StandardBulletinA"`,
/// `"StandardBulletinB"` or `"Static"`.
pub fn eop_type_to_string(eop_type: EOPType) -> (r: String)
    ensures
        r@ == eop_type_name(eop_type),
{
    match eop_type {
        EOPType::C04 => String::from_str("C04"),
        EOPType::StandardBulletinA => String::from_str("StandardBulletinA"),
        EOPType::StandardBulletinB => String::from_str("StandardBulletinB"),
        EOPType::Static => String::from_str("Static"),
    }
}


/// Reading an extrapolation setting's name gives back that setting.
pub proof fn lemma_extrapolation_name_roundtrip(e: EOPExtrapolation)
    ensures
        extrapolation_named(extrapolation_name(e)) == Some(e),
{
    reveal_strlit("Hold");
    reveal_strlit("Zero");
    reveal_strlit("Error");
    assert("Zero"@[0] != "Hold"@[0]);
    assert("Error"@[0] != "Hold"@[0]);
    assert("Error"@[0] != "Zero"@[0]);
}

/// The name of an extrapolation setting is the variant name that its
/// display form `EOPExtrapolation::<name>` spells, and a name is read as the
/// setting whose display form it completes.
pub proof fn lemma_extrapolation_name_is_variant(e: EOPExtrapolation, s: Seq<char>)
    ensures
        extrapolation_display(e) == "EOPExtrapolation::"@ + extrapolation_name(e),
        extrapolation_named(s) == Some(e) ==> extrapolation_display(e) == "EOPExtrapolation::"@ + s,
{
    reveal_strlit("Hold");
    reveal_strlit("Zero");
    reveal_strlit("Error");
    reveal_strlit("EOPExtrapolation::");
    reveal_strlit("EOPExtrapolation::Hold");
    reveal_strlit("EOPExtrapolation::Zero");
    reveal_strlit("EOPExtrapolation::Error");
    assert(extrapolation_display(e) =~= "EOPExtrapolation::"@ + extrapolation_name(e));
    lemma_extrapolation_name_roundtrip(e);
    if extrapolation_named(s) == Some(e) {
        assert(s == extrapolation_name(e));
    }
}

/// The name of a data type is its variant name: the display form for C04
/// and static data, and `StandardBulletin` followed by the bulletin letter
/// that the display form `Bulletin <letter>` shows for standard data.
pub proof fn lemma_eop_type_name_is_variant(t: EOPType)
    ensures
        (t == EOPType::C04 || t == EOPType::Static) ==> eop_type_name(t) == eop_type_display(t),
        (t == EOPType::StandardBulletinA || t == EOPType::StandardBulletinB) ==> {
            &&& eop_type_display(t).subrange(0, 9) == "Bulletin "@
            &&& eop_type_name(t) == "StandardBulletin"@ + eop_type_display(t).subrange(9, 10)
            &&& eop_type_display(t).len() == 10
        },
        eop_type_display(EOPType::StandardBulletinA)[9] == 'A',
        eop_type_display(EOPType::StandardBulletinB)[9] == 'B',
{
    reveal_strlit("C04");
    reveal_strlit("Static");
    reveal_strlit("Bulletin A");
    reveal_strlit("Bulletin B");
    reveal_strlit("Bulletin ");
    reveal_strlit("StandardBulletin");
    reveal_strlit("StandardBulletinA");
    reveal_strlit("StandardBulletinB");
    assert(eop_type_display(EOPType::StandardBulletinA).subrange(0, 9) =~= "Bulletin "@);
    assert(eop_type_display(EOPType::StandardBulletinB).subrange(0, 9) =~= "Bulletin "@);
    assert(eop_type_name(EOPType::StandardBulletinA) =~= "StandardBulletin"@ + eop_type_display(
        EOPType::StandardBulletinA,
    ).subrange(9, 10));
    assert(eop_type_name(EOPType::StandardBulletinB) =~= "StandardBulletin"@ + eop_type_display(
        EOPType::StandardBulletinB,
    ).subrange(9, 10));
}

/// Reading a data type's name gives back that data type.
pub proof fn lemma_eop_type_name_roundtrip(t: EOPType)
    ensures
        eop_type_named(eop_type_name(t)) == Some(t),
{
    reveal_strlit("C04");
    reveal_strlit("StandardBulletinA");
    reveal_strlit("StandardBulletinB");
    reveal_strlit("Static");
    assert("StandardBulletinA"@.len() != "C04"@.len());
    assert("StandardBulletinB"@.len() != "C04"@.len());
    assert("StandardBulletinB"@[16] != "StandardBulletinA"@[16]);
    assert("Static"@.len() != "C04"@.len());
    assert("Static"@.len() != "StandardBulletinA"@.len());
    assert("Static"@.len() != "StandardBulletinB"@.len());
}

/// The first 14 lines of a C04 file are a header: two files that differ only
/// there load the same way.
pub proof fn lemma_c04_header_ignored(a: Seq<Option<Seq<u8>>>, b: Seq<Option<Seq<u8>>>)
    requires
        a.len() == b.len(),
        forall|i: int| c04_header_lines() <= i < a.len() ==> a[i] == b[i],
    ensures
        c04_scan(a) == c04_scan(b),
    decreases a.len(),
{
    if a.len() > 0 {
        lemma_c04_header_ignored(a.drop_last(), b.drop_last());
        if a.len() - 1 >= c04_header_lines() {
            assert(a.last() == b.last());
        }
    }
}

/// A line of a standard file that does not parse leaves the loaded table as it was.
pub proof fn lemma_standard_bad_line_skipped(
    lines: Seq<Option<Seq<u8>>>,
    l: Seq<u8>,
    eop_type: EOPType,
)
    requires
        standard_line_spec(l, eop_type) is Fail,
    ensures
        standard_scan(lines.push(Some(l)), eop_type) == standard_scan(lines, eop_type),
{
    assert(lines.push(Some(l)).drop_last() =~= lines);
}

/// The records that the lines of a standard file yield, in file order.
pub open spec fn standard_records(lines: Seq<Option<Seq<u8>>>, eop_type: EOPType) -> Seq<
    EopValues,
>
    decreases lines.len(),
{
    if lines.len() == 0 {
        Seq::empty()
    } else {
        let prev = standard_records(lines.drop_last(), eop_type);
        match lines.last() {
            Some(l) => match standard_line_spec(l, eop_type) {
                Step::Value(r) => prev.push(r),
                _ => prev,
            },
            None => prev,
        }
    }
}

/// The records that the data lines of a C04 file yield, in file order.
pub open spec fn c04_records(lines: Seq<Option<Seq<u8>>>) -> Seq<EopValues>
    decreases lines.len(),
{
    if lines.len() == 0 {
        Seq::empty()
    } else {
        let prev = c04_records(lines.drop_last());
        if lines.len() - 1 < c04_header_lines() {
            prev
        } else {
            match lines.last() {
                Some(l) => match c04_line_spec(l) {
                    Step::Value(r) => prev.push(r),
                    _ => prev,
                },
                None => prev,
            }
        }
    }
}

/// No record after position `i` of `rs` has the same date as `rs[i]`.
pub open spec fn last_of_date(rs: Seq<EopValues>, i: int) -> bool {
    forall|j: int| i < j < rs.len() ==> #[trigger] rs[j].mjd != rs[i].mjd
}

/// `rs` has a record dated `k`.
pub open spec fn has_date(rs: Seq<EopValues>, k: u32) -> bool {
    exists|i: int| 0 <= i < rs.len() && #[trigger] rs[i].mjd == k
}

/// The loaded data are the records `rs`: one entry for each date that
/// occurs, holding the last record of that date.
pub open spec fn stores_records(d: Map<u32, EopValues>, rs: Seq<EopValues>) -> bool {
    &&& forall|k: u32| #[trigger] d.contains_key(k) <==> has_date(rs, k)
    &&& forall|i: int| 0 <= i < rs.len() && last_of_date(rs, i) ==> d[#[trigger] rs[i].mjd] == rs[i]
}

proof fn lemma_stores_add(d: Map<u32, EopValues>, rs: Seq<EopValues>, r: EopValues)
    requires
        stores_records(d, rs),
    ensures
        stores_records(scan_add(d, r), rs.push(r)),
{
    let d2 = scan_add(d, r);
    let rs2 = rs.push(r);
    let n = rs.len() as int;
    assert(rs2[n] == r);
    assert forall|k: u32| #[trigger] d2.contains_key(k) <==> has_date(rs2, k) by {
        if d2.contains_key(k) {
            if k == r.mjd {
                assert(rs2[n].mjd == k);
            } else {
                assert(has_date(rs, k));
                let i = choose|i: int| 0 <= i < rs.len() && #[trigger] rs[i].mjd == k;
                assert(rs2[i] == rs[i]);
            }
        }
        if has_date(rs2, k) {
            let i = choose|i: int| 0 <= i < rs2.len() && #[trigger] rs2[i].mjd == k;
            if i < n {
                assert(rs2[i] == rs[i]);
                assert(has_date(rs, k));
            }
        }
    }
    assert forall|i: int| 0 <= i < rs2.len() && last_of_date(rs2, i) implies d2[
        #[trigger] rs2[i].mjd] == rs2[i] by {
        if i < n {
            assert(rs2[i] == rs[i]);
            assert(rs2[n].mjd != rs2[i].mjd);
            assert forall|j: int| i < j < rs.len() implies #[trigger] rs[j].mjd != rs[i].mjd by {
                assert(rs2[j] == rs[j]);
            }
        }
    }
}

/// Loading a standard file stores what its lines yield: the table holds a
/// record for exactly the dates read, and at each date the last record read
/// for it (for a file with one line per date, every line read back as it
/// was parsed).
pub proof fn lemma_standard_table_stores_records(lines: Seq<Option<Seq<u8>>>, eop_type: EOPType)
    ensures
        standard_scan(lines, eop_type) matches ScanState::Running(st) ==> stores_records(
            st,
            standard_records(lines, eop_type),
        ),
    decreases lines.len(),
{
    if lines.len() > 0 {
        let prefix = lines.drop_last();
        lemma_standard_table_stores_records(prefix, eop_type);
        if let ScanState::Running(st) = standard_scan(prefix, eop_type) {
            if let Some(l) = lines.last() {
                if let Step::Value(r) = standard_line_spec(l, eop_type) {
                    lemma_stores_add(st, standard_records(prefix, eop_type), r);
                }
            }
        }
    } else {
        assert forall|k: u32| #[trigger] Map::<u32, EopValues>::empty().contains_key(k) <==> has_date(
            standard_records(lines, eop_type),
            k,
        ) by {}
    }
}

/// Loading a C04 file stores what its data lines yield: the table holds a
/// record for exactly the dates read, and at each date the last record read
/// for it.
pub proof fn lemma_c04_table_stores_records(lines: Seq<Option<Seq<u8>>>)
    ensures
        c04_scan(lines) matches ScanState::Running(st) ==> stores_records(st, c04_records(lines)),
    decreases lines.len(),
{
    if lines.len() > 0 {
        let prefix = lines.drop_last();
        lemma_c04_table_stores_records(prefix);
        if let ScanState::Running(st) = c04_scan(prefix) {
            if lines.len() - 1 >= c04_header_lines() {
                if let Some(l) = lines.last() {
                    if let Step::Value(r) = c04_line_spec(l) {
                        lemma_stores_add(st, c04_records(prefix), r);
                    }
                }
            }
        }
    } else {
        assert forall|k: u32| #[trigger] Map::<u32, EopValues>::empty().contains_key(k) <==> has_date(
            c04_records(lines),
            k,
        ) by {}
    }
}

/// The parameter groups that lookups return, each held through its own last date.
#[derive(Debug, Clone, Copy, PartialEq, Eq, Structural)]
pub enum EopQuantity {
    /// pm_x and pm_y, held through `mjd_max`.
    PolarMotion,
    /// UT1-UTC, held through `mjd_max`.
    Ut1Utc,
    /// dX and dY, held through `mjd_last_dxdy`.
    DxDy,
    /// LOD, held through `mjd_last_lod`.
    Lod,
}

/// The record (or records) a lookup takes its value from.
pub enum EopLookup<'a> {
    /// Interpolate linearly between the records of the day and the next day.
    Interpolate(&'a EopRecord, &'a EopRecord),
    /// The value of the record of the day.
    Prior(&'a EopRecord),
    /// Past the last date, the value is zero.
    Zero,
    /// Past the last date, the value of the record at the last date.
    Hold(&'a EopRecord),
    /// Past the last date, the lookup is an error.
    Abort,
}

/// Polar motion and UT1-UTC are taken from the data through the table's
/// largest date, dX/dY through its last dX/dY date and LOD through its last
/// LOD date, whatever the records carry.
pub proof fn lemma_limit_dates(t: EopTable)
    ensures
        t.limit_spec(EopQuantity::PolarMotion) == t.mjd_max,
        t.limit_spec(EopQuantity::Ut1Utc) == t.mjd_max,
        t.limit_spec(EopQuantity::DxDy) == t.mjd_last_dxdy,
        t.limit_spec(EopQuantity::Lod) == t.mjd_last_lod,
{
}

/// The record carries the values of quantity `q`.
pub open spec fn has_quantity(r: EopValues, q: EopQuantity) -> bool {
    match q {
        EopQuantity::DxDy => r.dx is Some && r.dy is Some,
        EopQuantity::Lod => r.lod is Some,
        _ => true,
    }
}

impl EopTable {
    /// Number of dates with a record.
    pub fn len(&self) -> (n: usize)
        ensures
            n == self.data@.len(),
    {
        self.data.len()
    }

    /// Last date through which quantity `q` is taken from the data.
    pub open spec fn limit_spec(&self, q: EopQuantity) -> u32 {
        match q {
            EopQuantity::DxDy => self.mjd_last_dxdy,
            EopQuantity::Lod => self.mjd_last_lod,
            _ => self.mjd_max,
        }
    }

    /// Last date through which quantity `q` is taken from the data.
    pub fn limit(&self, q: EopQuantity) -> (r: u32)
        ensures
            r == self.limit_spec(q),
            (q == EopQuantity::PolarMotion || q == EopQuantity::Ut1Utc) ==> r == self.mjd_max,
            q == EopQuantity::DxDy ==> r == self.mjd_last_dxdy,
            q == EopQuantity::Lod ==> r == self.mjd_last_lod,
    {
        match q {
            EopQuantity::DxDy => self.mjd_last_dxdy,
            EopQuantity::Lod => self.mjd_last_lod,
            _ => self.mjd_max,
        }
    }

    /// The table holds a record at `day` that carries quantity `q`.
    pub open spec fn has_day(&self, day: u32, q: EopQuantity) -> bool {
        self.data@.contains_key(day) && has_quantity(self.data@[day]@, q)
    }

    /// Bulletin B data carry no LOD: past its (zero) last date, a LOD lookup
    /// that would hold the last value gives zero instead.
    pub open spec fn lod_absent(&self, q: EopQuantity) -> bool {
        q == EopQuantity::Lod && self.eop_type == EOPType::StandardBulletinB
    }

    /// The records a lookup of `q` at `day` needs are present. `past_limit`
    /// says whether the requested date lies beyond the quantity's last date.
    pub open spec fn lookup_ok(&self, q: EopQuantity, day: u32, past_limit: bool) -> bool {
        if !past_limit {
            if self.interpolate && day < self.limit_spec(q) {
                self.has_day(day, q) && self.has_day((day + 1) as u32, q)
            } else {
                self.has_day(day, q)
            }
        } else {
            self.extrapolate == EOPExtrapolation::Hold && !self.lod_absent(q) ==> self.has_day(
                self.limit_spec(q),
                q,
            )
        }
    }

    /// Whether the records a lookup needs are missing.
    pub fn lookup_would_panic(&self, q: EopQuantity, day: u32, past_limit: bool) -> (r: bool)
        ensures
            r == !self.lookup_ok(q, day, past_limit),
    {
        if !past_limit {
            if self.interpolate && day < self.limit(q) {
                !(self.day_has(day, q) && self.day_has(day + 1, q))
            } else {
                !self.day_has(day, q)
            }
        } else {
            match self.extrapolate {
                EOPExtrapolation::Hold => !self.lod_is_absent(q) && !self.day_has(self.limit(q), q),
                _ => false,
            }
        }
    }

    fn lod_is_absent(&self, q: EopQuantity) -> (b: bool)
        ensures
            b == self.lod_absent(q),
    {
        match (q, self.eop_type) {
            (EopQuantity::Lod, EOPType::StandardBulletinB) => true,
            _ => false,
        }
    }

    fn day_has(&self, day: u32, q: EopQuantity) -> (r: bool)
        ensures
            r == self.has_day(day, q),
    {
        match self.data.get(&day) {
            Some(rec) => record_has(rec, q),
            None => false,
        }
    }

    /// Where the value of quantity `q` for a date comes from. `day` is the
    /// whole part of the date and `past_limit` whether the date lies beyond
    /// the quantity's last date. Up to that date: when interpolating and
    /// before the last date, the records of the day and the next day;
    /// otherwise the day's record. Past it: zero, the record at the last
    /// date, or an error, as the extrapolation setting says; holding a
    /// Bulletin B LOD gives zero.
    pub fn lookup(&self, q: EopQuantity, day: u32, past_limit: bool) -> (r: EopLookup<'_>)
        requires
            self.lookup_ok(q, day, past_limit),
        ensures
            !past_limit && self.interpolate && day < self.limit_spec(q) ==> (r matches EopLookup::Interpolate(
                a,
                b,
            ) && *a == self.data@[day] && *b == self.data@[(day + 1) as u32]),
            !past_limit && (!self.interpolate || day >= self.limit_spec(q)) ==> (r matches EopLookup::Prior(
                a,
            ) && *a == self.data@[day]),
            past_limit && self.extrapolate == EOPExtrapolation::Zero ==> r is Zero,
            past_limit && self.extrapolate == EOPExtrapolation::Hold && !self.lod_absent(q) ==> (r matches EopLookup::Hold(
                a,
            ) && *a == self.data@[self.limit_spec(q)]),
            past_limit && self.extrapolate == EOPExtrapolation::Hold && self.lod_absent(q) ==> r is Zero,
            past_limit && self.extrapolate == EOPExtrapolation::Error ==> r is Abort,
    {
        if !past_limit {
            if self.interpolate && day < self.limit(q) {
                let a = self.data.get(&day).unwrap();
                let b = self.data.get(&(day + 1)).unwrap();
                EopLookup::Interpolate(a, b)
            } else {
                EopLookup::Prior(self.data.get(&day).unwrap())
            }
        } else {
            match self.extrapolate {
                EOPExtrapolation::Zero => EopLookup::Zero,
                EOPExtrapolation::Hold => {
                    if self.lod_is_absent(q) {
                        EopLookup::Zero
                    } else {
                        EopLookup::Hold(self.data.get(&self.limit(q)).unwrap())
                    }
                },
                EOPExtrapolation::Error => EopLookup::Abort,
            }
        }
    }
}

/// A table loaded from a file can hold the last value of every quantity that
/// some record carries: a lookup past the quantity's last date under `Hold`
/// finds a record carrying it there.
pub proof fn lemma_loaded_table_holds(t: EopTable, d: Map<u32, EopValues>, q: EopQuantity, day: u32, k: u32)
    requires
        data_is(t.data@, d),
        is_last_date(d, q, t.limit_spec(q)),
        carries(d, k, q),
    ensures
        t.lookup_ok(q, day, true),
{
    assert(carries(d, t.limit_spec(q), q));
}

/// Every record loaded from a C04 file carries every quantity, so its LOD and
/// dX/dY last dates are its largest date.
pub proof fn lemma_c04_records_carry_all(lines: Seq<Option<Seq<u8>>>, q: EopQuantity, v: u32)
    ensures
        c04_scan(lines) matches ScanState::Running(d) ==> {
            &&& forall|k: u32| #[trigger] d.contains_key(k) ==> carries(d, k, q)
            &&& is_last_date(d, EopQuantity::PolarMotion, v) ==> is_last_date(d, q, v)
        },
    decreases lines.len(),
{
    if lines.len() > 0 {
        lemma_c04_records_carry_all(lines.drop_last(), q, v);
    }
    if let ScanState::Running(d) = c04_scan(lines) {
        if is_last_date(d, EopQuantity::PolarMotion, v) {
            assert forall|k: u32| #[trigger] carries(d, k, q) implies k <= v by {
                assert(carries(d, k, EopQuantity::PolarMotion));
            }
            if !carries(d, v, q) {
                assert(!carries(d, v, EopQuantity::PolarMotion));
                assert forall|k: u32| !#[trigger] carries(d, k, q) by {
                    assert(!carries(d, k, EopQuantity::PolarMotion));
                }
            }
        }
    }
}

/// Every record loaded from Bulletin B data carries dX and dY, so its last
/// dX/dY date is its largest date.
pub proof fn lemma_bulletin_b_dxdy_through_last_date(lines: Seq<Option<Seq<u8>>>, v: u32)
    ensures
        standard_scan(lines, EOPType::StandardBulletinB) matches ScanState::Running(d) ==> {
            &&& forall|k: u32| #[trigger] d.contains_key(k) ==> carries(d, k, EopQuantity::DxDy)
            &&& is_last_date(d, EopQuantity::PolarMotion, v) ==> is_last_date(d, EopQuantity::DxDy, v)
        },
    decreases lines.len(),
{
    if lines.len() > 0 {
        lemma_bulletin_b_dxdy_through_last_date(lines.drop_last(), v);
    }
    if let ScanState::Running(d) = standard_scan(lines, EOPType::StandardBulletinB) {
        let q = EopQuantity::DxDy;
        if is_last_date(d, EopQuantity::PolarMotion, v) {
            assert forall|k: u32| #[trigger] carries(d, k, q) implies k <= v by {
                assert(carries(d, k, EopQuantity::PolarMotion));
            }
            if !carries(d, v, q) {
                assert(!carries(d, v, EopQuantity::PolarMotion));
                assert forall|k: u32| !#[trigger] carries(d, k, q) by {
                    assert(!carries(d, k, EopQuantity::PolarMotion));
                }
            }
        }
    }
}


/// Every record loaded from Bulletin B data has LOD `0.0`.
proof fn lemma_bulletin_b_lod_zero(lines: Seq<Option<Seq<u8>>>)
    ensures
        standard_scan(lines, EOPType::StandardBulletinB) matches ScanState::Running(d) ==> forall|
            k: u32,
        | #[trigger] d.contains_key(k) ==> d[k].lod == Some(zero_text()),
    decreases lines.len(),
{
    if lines.len() > 0 {
        lemma_bulletin_b_lod_zero(lines.drop_last());
    }
}

/// Answering zero for an absent LOD never changes the value: in a table
/// loaded from a standard file, LOD is treated as absent only where every
/// record's LOD is `0.0` (Bulletin B), and Bulletin A tables hold their LOD.
pub proof fn lemma_standard_absent_lod_is_zero(lines: Seq<Option<Seq<u8>>>, eop_type: EOPType, t: EopTable)
    requires
        standard_scan(lines, eop_type) matches ScanState::Running(d) && data_is(t.data@, d),
        t.eop_type == eop_type,
    ensures
        t.lod_absent(EopQuantity::Lod) ==> forall|k: u32| #[trigger] t.data@.contains_key(k)
            ==> t.data@[k]@.lod == Some(zero_text()),
        eop_type == EOPType::StandardBulletinA ==> !t.lod_absent(EopQuantity::Lod),
{
    lemma_bulletin_b_lod_zero(lines);
    if t.lod_absent(EopQuantity::Lod) {
        let d = standard_scan(lines, eop_type)->Running_0;
        assert forall|k: u32| #[trigger] t.data@.contains_key(k) implies t.data@[k]@.lod == Some(
            zero_text(),
        ) by {
            assert(d.contains_key(k));
        }
    }
}

/// A C04 table holds its LOD: LOD is never treated as absent, so under
/// `Hold` a LOD lookup past the last date takes the record at the table's
/// largest date, which carries a LOD value; and, as for standard data, LOD
/// would be treated as absent only if every record's LOD were `0.0`.
pub proof fn lemma_c04_lod_held(lines: Seq<Option<Seq<u8>>>, t: EopTable, day: u32)
    requires
        c04_scan(lines) matches ScanState::Running(d) && data_is(t.data@, d),
        t.eop_type == EOPType::C04,
        t.mjd_last_lod == t.mjd_max,
        is_last_date(c04_scan(lines)->Running_0, EopQuantity::PolarMotion, t.mjd_max),
        t.data@.len() > 0,
    ensures
        !t.lod_absent(EopQuantity::Lod),
        t.lookup_ok(EopQuantity::Lod, day, true),
        t.data@[t.limit_spec(EopQuantity::Lod)]@.lod is Some,
        t.lod_absent(EopQuantity::Lod) ==> forall|k: u32| #[trigger] t.data@.contains_key(k)
            ==> t.data@[k]@.lod == Some(zero_text()),
{
    let d = c04_scan(lines)->Running_0;
    lemma_c04_records_carry_all(lines, EopQuantity::Lod, t.mjd_max);
    lemma_last_date_is_largest(d, t.mjd_max);
    if !d.contains_key(t.mjd_max) {
        assert(t.data@.dom() =~= d.dom());
        assert(t.data@.dom().len() == 0);
    }
    assert(carries(d, t.mjd_max, EopQuantity::Lod));
}

/// A table of one constant set of values: a single record at MJD 0 that
/// carries every parameter, held for all later dates and not interpolated.
pub open spec fn is_static_table(t: EopTable, v: EopValues) -> bool {
    &&& v.mjd == 0
    &&& v.dx is Some && v.dy is Some && v.lod is Some
    &&& t.eop_type == EOPType::Static
    &&& t.extrapolate == EOPExtrapolation::Hold
    &&& !t.interpolate
    &&& t.mjd_min == 0 && t.mjd_max == 0
    &&& t.mjd_last_lod == 0 && t.mjd_last_dxdy == 0
    &&& t.data@.dom() == set![0u32]
    &&& t.data@[0u32]@ == v
}

impl EopTable {
    /// A table that gives the values `pm_x`, `pm_y`, `ut1_utc`, `dx`, `dy`
    /// and `lod` (kept as the texts given) for every date.
    pub fn from_static_values(
        pm_x: Vec<u8>,
        pm_y: Vec<u8>,
        ut1_utc: Vec<u8>,
        dx: Vec<u8>,
        dy: Vec<u8>,
        lod: Vec<u8>,
    ) -> (t: EopTable)
        ensures
            is_static_table(
                t,
                EopValues {
                    mjd: 0,
                    pm_x: pm_x@,
                    pm_y: pm_y@,
                    ut1_utc: ut1_utc@,
                    dx: Some(dx@),
                    dy: Some(dy@),
                    lod: Some(lod@),
                },
            ),
    {
        let rec = EopRecord { mjd: 0, pm_x, pm_y, ut1_utc, dx: Some(dx), dy: Some(dy), lod: Some(lod) };
        let mut data: HashMap<u32, EopRecord> = HashMap::new();
        data.insert(0, rec);
        assert(data@.dom() =~= set![0u32]);
        EopTable {
            eop_type: EOPType::Static,
            data,
            extrapolate: EOPExtrapolation::Hold,
            interpolate: false,
            mjd_min: 0,
            mjd_max: 0,
            mjd_last_lod: 0,
            mjd_last_dxdy: 0,
        }
    }

    /// A static table whose values are all zero (the text `0.0`).
    pub fn from_zero() -> (t: EopTable)
        ensures
            is_static_table(
                t,
                EopValues {
                    mjd: 0,
                    pm_x: zero_text(),
                    pm_y: zero_text(),
                    ut1_utc: zero_text(),
                    dx: Some(zero_text()),
                    dy: Some(zero_text()),
                    lod: Some(zero_text()),
                },
            ),
    {
        Self::from_static_values(zero_bytes(), zero_bytes(), zero_bytes(), zero_bytes(), zero_bytes(), zero_bytes())
    }
}

/// The text `0.0`.
fn zero_bytes() -> (v: Vec<u8>)
    ensures
        v@ == zero_text(),
{
    let v: Vec<u8> = vec![48u8, 46, 48];
    assert(v@ =~= zero_text());
    v
}

/// A static table gives its one set of values for every date: a lookup of
/// any quantity past the table's date (every date after MJD 0) holds the
/// record, and a lookup up to it (day 0) takes the same record.
pub proof fn lemma_static_table_every_date(t: EopTable, v: EopValues, q: EopQuantity, day: u32)
    requires
        is_static_table(t, v),
    ensures
        t.lookup_ok(q, day, true),
        t.data@[t.limit_spec(q)]@ == v,
        t.lookup_ok(q, 0, false),
{
    assert(t.data@.dom().contains(0u32));
}

} // verus!
