//! Time systems and the textual forms of an instant: the time-system names
//! and the grammar of epoch strings.
use vstd::prelude::*;
use crate::text::{enclose, str_is};

verus! {

/// Time systems (continuous time scales) an instant can be expressed in.
///
/// - `GPS`: Global Positioning System time.
/// - `TAI`: International Atomic Time.
/// - `TT`: Terrestrial Time.
/// - `UTC`: Coordinated Universal Time.
/// - `UT1`: Universal Time 1.
#[derive(Debug, Clone, Copy, PartialEq, Eq, Structural)]
pub enum TimeSystem {
    GPS,
    TAI,
    TT,
    UTC,
    UT1,
}

/// The name of a time system: its acronym.
pub open spec fn time_system_name(ts: TimeSystem) -> Seq<char> {
    match ts {
        TimeSystem::GPS => "GPS"@,
        TimeSystem::TAI => "TAI"@,
        TimeSystem::TT => "TT"@,
        TimeSystem::UTC => "UTC"@,
        TimeSystem::UT1 => "UT1"@,
    }
}

/// The time system an acronym names, if any.
pub open spec fn time_system_named(s: Seq<char>) -> Option<TimeSystem> {
    if s == "GPS"@ {
        Some(TimeSystem::GPS)
    } else if s == "TAI"@ {
        Some(TimeSystem::TAI)
    } else if s == "TT"@ {
        Some(TimeSystem::TT)
    } else if s == "UTC"@ {
        Some(TimeSystem::UTC)
    } else if s == "UT1"@ {
        Some(TimeSystem::UT1)
    } else {
        None
    }
}

impl TimeSystem {
    /// Display form of the time system, e.g. `"GPS"`.
    pub fn to_string(&self) -> (s: String)
        ensures
            s@ == time_system_name(*self),
    {
        time_system_to_string(*self)
    }
}

/// Name of a time system: `"GPS"`, `"TAI"`, `"TT"`, `"UTC"` or `"UT1"`.
pub fn time_system_to_string(ts: TimeSystem) -> (r: String)
    ensures
        r@ == time_system_name(ts),
{
    match ts {
        TimeSystem::GPS => String::from_str("GPS"),
        TimeSystem::TAI => String::from_str("TAI"),
        TimeSystem::TT => String::from_str("TT"),
        TimeSystem::UTC => String::from_str("UTC"),
        TimeSystem::UT1 => String::from_str("UT1"),
    }
}

/// Reads a time system from its acronym; any other text is refused with
/// `Unknown time system string "<text>"`.
pub fn string_to_time_system(s: &str) -> (r: Result<TimeSystem, String>)
    ensures
        match time_system_named(s@) {
            Some(t) => r == Ok::<TimeSystem, String>(t),
            None => r matches Err(m) && m@ == "Unknown time system string \""@ + s@ + "\""@,
        },
{
    match named_time_system(s) {
        Some(t) => Ok(t),
        None => Err(enclose("Unknown time system string \"", s, "\"")),
    }
}

/// Reads a time system from its acronym; any other text is refused with
/// `Unkown time system string "<text>"`.
pub fn str_to_time_system(s: &str) -> (r: Result<TimeSystem, String>)
    ensures
        match time_system_named(s@) {
            Some(t) => r == Ok::<TimeSystem, String>(t),
            None => r matches Err(m) && m@ == "Unkown time system string \""@ + s@ + "\""@,
        },
{
    match named_time_system(s) {
        Some(t) => Ok(t),
        None => Err(enclose("Unkown time system string \"", s, "\"")),
    }
}

fn named_time_system(s: &str) -> (r: Option<TimeSystem>)
    ensures
        r == time_system_named(s@),
{
    if str_is(s, "GPS") {
        Some(TimeSystem::GPS)
    } else if str_is(s, "TAI") {
        Some(TimeSystem::TAI)
    } else if str_is(s, "TT") {
        Some(TimeSystem::TT)
    } else if str_is(s, "UTC") {
        Some(TimeSystem::UTC)
    } else if str_is(s, "UT1") {
        Some(TimeSystem::UT1)
    } else {
        None
    }
}

/// The characters of `s`, in order.
fn chars_of(s: &str) -> (v: Vec<char>)
    ensures
        v@ == s@,
{
    broadcast use vstd::string::group_string_axioms;

    let mut v: Vec<char> = Vec::new();
    for c in it: s.chars()
        invariant
            it.seq() == s@,
            v@ == it.seq().take(it.index() as int),
    {
        v.push(c);
        assert(v@ =~= it.seq().take(it.index() + 1));
    }
    assert(v@ =~= s@);
    v
}

/// Unicode `Decimal_Number` characters: what `\d` matches.
pub open spec fn is_decimal_digit(c: char) -> bool {
    let x = c as u32;
    (0x30 <= x && x <= 0x39) ||
    (0x660 <= x && x <= 0x669) ||
    (0x6F0 <= x && x <= 0x6F9) ||
    (0x7C0 <= x && x <= 0x7C9) ||
    (0x966 <= x && x <= 0x96F) ||
    (0x9E6 <= x && x <= 0x9EF) ||
    (0xA66 <= x && x <= 0xA6F) ||
    (0xAE6 <= x && x <= 0xAEF) ||
    (0xB66 <= x && x <= 0xB6F) ||
    (0xBE6 <= x && x <= 0xBEF) ||
    (0xC66 <= x && x <= 0xC6F) ||
    (0xCE6 <= x && x <= 0xCEF) ||
    (0xD66 <= x && x <= 0xD6F) ||
    (0xDE6 <= x && x <= 0xDEF) ||
    (0xE50 <= x && x <= 0xE59) ||
    (0xED0 <= x && x <= 0xED9) ||
    (0xF20 <= x && x <= 0xF29) ||
    (0x1040 <= x && x <= 0x1049) ||
    (0x1090 <= x && x <= 0x1099) ||
    (0x17E0 <= x && x <= 0x17E9) ||
    (0x1810 <= x && x <= 0x1819) ||
    (0x1946 <= x && x <= 0x194F) ||
    (0x19D0 <= x && x <= 0x19D9) ||
    (0x1A80 <= x && x <= 0x1A89) ||
    (0x1A90 <= x && x <= 0x1A99) ||
    (0x1B50 <= x && x <= 0x1B59) ||
    (0x1BB0 <= x && x <= 0x1BB9) ||
    (0x1C40 <= x && x <= 0x1C49) ||
    (0x1C50 <= x && x <= 0x1C59) ||
    (0xA620 <= x && x <= 0xA629) ||
    (0xA8D0 <= x && x <= 0xA8D9) ||
    (0xA900 <= x && x <= 0xA909) ||
    (0xA9D0 <= x && x <= 0xA9D9) ||
    (0xA9F0 <= x && x <= 0xA9F9) ||
    (0xAA50 <= x && x <= 0xAA59) ||
    (0xABF0 <= x && x <= 0xABF9) ||
    (0xFF10 <= x && x <= 0xFF19) ||
    (0x104A0 <= x && x <= 0x104A9) ||
    (0x10D30 <= x && x <= 0x10D39) ||
    (0x10D40 <= x && x <= 0x10D49) ||
    (0x11066 <= x && x <= 0x1106F) ||
    (0x110F0 <= x && x <= 0x110F9) ||
    (0x11136 <= x && x <= 0x1113F) ||
    (0x111D0 <= x && x <= 0x111D9) ||
    (0x112F0 <= x && x <= 0x112F9) ||
    (0x11450 <= x && x <= 0x11459) ||
    (0x114D0 <= x && x <= 0x114D9) ||
    (0x11650 <= x && x <= 0x11659) ||
    (0x116C0 <= x && x <= 0x116C9) ||
    (0x116D0 <= x && x <= 0x116E3) ||
    (0x11730 <= x && x <= 0x11739) ||
    (0x118E0 <= x && x <= 0x118E9) ||
    (0x11950 <= x && x <= 0x11959) ||
    (0x11BF0 <= x && x <= 0x11BF9) ||
    (0x11C50 <= x && x <= 0x11C59) ||
    (0x11D50 <= x && x <= 0x11D59) ||
    (0x11DA0 <= x && x <= 0x11DA9) ||
    (0x11F50 <= x && x <= 0x11F59) ||
    (0x16130 <= x && x <= 0x16139) ||
    (0x16A60 <= x && x <= 0x16A69) ||
    (0x16AC0 <= x && x <= 0x16AC9) ||
    (0x16B50 <= x && x <= 0x16B59) ||
    (0x16D70 <= x && x <= 0x16D79) ||
    (0x1CCF0 <= x && x <= 0x1CCF9) ||
    (0x1D7CE <= x && x <= 0x1D7FF) ||
    (0x1E140 <= x && x <= 0x1E149) ||
    (0x1E2F0 <= x && x <= 0x1E2F9) ||
    (0x1E4F0 <= x && x <= 0x1E4F9) ||
    (0x1E5F1 <= x && x <= 0x1E5FA) ||
    (0x1E950 <= x && x <= 0x1E959) ||
    (0x1FBF0 <= x && x <= 0x1FBF9)
}

/// Unicode `White_Space` characters: what `\s` matches.
pub open spec fn is_white_space(c: char) -> bool {
    let x = c as u32;
    (9 <= x && x <= 13) || x == 32 || x == 0x85 || x == 0xA0 || x == 0x1680 || (0x2000 <= x && x
        <= 0x200A) || x == 0x2028 || x == 0x2029 || x == 0x202F || x == 0x205F || x == 0x3000
}

pub open spec fn is_ascii_digit(c: char) -> bool {
    48 <= c as u32 && c as u32 <= 57
}

pub open spec fn is_ascii_upper(c: char) -> bool {
    65 <= c as u32 && c as u32 <= 90
}

/// Every character of `s[a..b]` is a decimal digit.
pub open spec fn digits_in(s: Seq<char>, a: int, b: int) -> bool {
    forall|i: int| a <= i < b ==> is_decimal_digit(#[trigger] s[i])
}

/// Every character of `s[a..b]` is an ASCII digit.
pub open spec fn ascii_in(s: Seq<char>, a: int, b: int) -> bool {
    forall|i: int| a <= i < b ==> is_ascii_digit(#[trigger] s[i])
}

/// Value of a string of ASCII digits.
pub open spec fn dval(s: Seq<char>) -> nat
    decreases s.len(),
{
    if s.len() == 0 {
        0
    } else {
        dval(s.drop_last()) * 10 + ((s.last() as u32 - 48) as nat)
    }
}

pub open spec fn pow10(n: nat) -> nat
    decreases n,
{
    if n == 0 {
        1
    } else {
        10 * pow10((n - 1) as nat)
    }
}

/// Value of the digits `s[a..b]`.
pub open spec fn dval_at(s: Seq<char>, a: int, b: int) -> nat {
    dval(s.subrange(a, b))
}

/// `YYYY-MM-DD` at the start, digits being any decimal digits.
pub open spec fn date_ok(s: Seq<char>) -> bool {
    &&& s.len() >= 10
    &&& digits_in(s, 0, 4)
    &&& s[4] == '-'
    &&& digits_in(s, 5, 7)
    &&& s[7] == '-'
    &&& digits_in(s, 8, 10)
}

/// `hh:mm:ss` at characters 11..19.
pub open spec fn clock_ok(s: Seq<char>) -> bool {
    &&& s.len() >= 19
    &&& digits_in(s, 11, 13)
    &&& s[13] == ':'
    &&& digits_in(s, 14, 16)
    &&& s[16] == ':'
    &&& digits_in(s, 17, 19)
}

pub open spec fn date_ascii(s: Seq<char>) -> bool {
    ascii_in(s, 0, 4) && ascii_in(s, 5, 7) && ascii_in(s, 8, 10)
}

pub open spec fn clock_ascii(s: Seq<char>) -> bool {
    ascii_in(s, 11, 13) && ascii_in(s, 14, 16) && ascii_in(s, 17, 19)
}

/// Classes of the characters that may follow the seconds in the spaced form.
pub enum TailClass {
    Dot,
    Space,
    Digit,
    Upper,
}

pub open spec fn in_class(c: char, k: TailClass) -> bool {
    match k {
        TailClass::Dot => c == '.',
        TailClass::Space => is_white_space(c),
        TailClass::Digit => is_decimal_digit(c),
        TailClass::Upper => is_ascii_upper(c),
    }
}

/// End of the run of class-`k` characters of `s` that starts at `i`.
pub open spec fn run_end(s: Seq<char>, i: int, k: TailClass) -> int
    decreases s.len() - i,
{
    if 0 <= i < s.len() && in_class(s[i], k) {
        run_end(s, i + 1, k)
    } else {
        i
    }
}

/// Boundaries in the spaced form's tail `.* \s* (\d*) \s* ([A-Z]*)`: the
/// digits are `p2..p3`, the time-system letters `p4..p5`.
pub open spec fn tail_p1(s: Seq<char>) -> int {
    run_end(s, 19, TailClass::Dot)
}

pub open spec fn tail_p2(s: Seq<char>) -> int {
    run_end(s, tail_p1(s), TailClass::Space)
}

pub open spec fn tail_p3(s: Seq<char>) -> int {
    run_end(s, tail_p2(s), TailClass::Digit)
}

pub open spec fn tail_p4(s: Seq<char>) -> int {
    run_end(s, tail_p3(s), TailClass::Space)
}

pub open spec fn tail_p5(s: Seq<char>) -> int {
    run_end(s, tail_p4(s), TailClass::Upper)
}

/// A fraction-of-second digit string that can be read: empty, or at most
/// nine ASCII digits.
pub open spec fn fraction_ok(f: Seq<char>) -> bool {
    f.len() == 0 || (f.len() <= 9 && ascii_in(f, 0, f.len() as int))
}

/// Nanoseconds that the fraction-of-second digits `f` denote.
pub open spec fn fraction_ns(f: Seq<char>) -> nat {
    if f.len() == 0 {
        0
    } else {
        dval(f) * pow10((9 - f.len()) as nat)
    }
}

/// Calendar fields read from an epoch string.
#[derive(Debug, Clone, Copy, PartialEq, Eq, Structural)]
pub struct EpochFields {
    pub year: u32,
    pub month: u8,
    pub day: u8,
    pub hour: u8,
    pub minute: u8,
    pub second: u8,
    pub nanosecond: u32,
    pub time_system: TimeSystem,
}

/// Fields of the dashed forms: date at 0..10 and, when `clock`, the time at 11..19.
pub open spec fn dashed_fields(s: Seq<char>, clock: bool, ns: nat, ts: TimeSystem) -> EpochFields {
    EpochFields {
        year: dval_at(s, 0, 4) as u32,
        month: dval_at(s, 5, 7) as u8,
        day: dval_at(s, 8, 10) as u8,
        hour: if clock {
            dval_at(s, 11, 13) as u8
        } else {
            0
        },
        minute: if clock {
            dval_at(s, 14, 16) as u8
        } else {
            0
        },
        second: if clock {
            dval_at(s, 17, 19) as u8
        } else {
            0
        },
        nanosecond: ns as u32,
        time_system: ts,
    }
}

/// Fields of the compact form `YYYYMMDDThhmmssZ`.
pub open spec fn compact_fields(s: Seq<char>) -> EpochFields {
    EpochFields {
        year: dval_at(s, 0, 4) as u32,
        month: dval_at(s, 4, 6) as u8,
        day: dval_at(s, 6, 8) as u8,
        hour: dval_at(s, 9, 11) as u8,
        minute: dval_at(s, 11, 13) as u8,
        second: dval_at(s, 13, 15) as u8,
        nanosecond: 0,
        time_system: TimeSystem::UTC,
    }
}

/// Outcome of reading an epoch string: its fields, no match, or a matched
/// form whose digits cannot be read (which aborts).
pub enum EpochParse {
    Fields(EpochFields),
    NoMatch,
    Panic,
}

pub open spec fn is_date_form(s: Seq<char>) -> bool {
    s.len() == 10 && date_ok(s)
}

pub open spec fn is_iso_form(s: Seq<char>) -> bool {
    s.len() == 20 && date_ok(s) && s[10] == 'T' && clock_ok(s) && s[19] == 'Z'
}

pub open spec fn is_iso_fraction_form(s: Seq<char>) -> bool {
    &&& s.len() >= 21
    &&& date_ok(s)
    &&& s[10] == 'T'
    &&& clock_ok(s)
    &&& s[19] == '.'
    &&& digits_in(s, 20, s.len() - 1)
    &&& s[s.len() - 1] == 'Z'
}

pub open spec fn is_iso_zoned_fraction_form(s: Seq<char>) -> bool {
    &&& s.len() >= 22
    &&& date_ok(s)
    &&& s[10] == 'T'
    &&& clock_ok(s)
    &&& s[19] == 'Z'
    &&& s[20] == '.'
    &&& digits_in(s, 21, s.len() - 1)
    &&& s[s.len() - 1] == 'Z'
}

pub open spec fn is_compact_form(s: Seq<char>) -> bool {
    &&& s.len() == 16
    &&& digits_in(s, 0, 8)
    &&& s[8] == 'T'
    &&& digits_in(s, 9, 15)
    &&& s[15] == 'Z'
}

pub open spec fn is_spaced_form(s: Seq<char>) -> bool {
    &&& s.len() >= 19
    &&& date_ok(s)
    &&& is_white_space(s[10])
    &&& clock_ok(s)
    &&& tail_p5(s) == s.len()
}

/// What reading an epoch string gives. The forms, tried in this order, are
/// (`D` any decimal digit, `_` any whitespace character):
/// - `DDDD-DD-DD`: a UTC date at midnight;
/// - `DDDD-DD-DDTDD:DD:DDZ`: a UTC date and time;
/// - `DDDD-DD-DDTDD:DD:DD.D*Z`: a UTC date and time with fraction digits;
/// - `DDDD-DD-DDTDD:DD:DDZ.D*Z`: the same, with the fraction after a `Z`;
/// - `DDDDDDDDTDDDDDDZ`: the compact UTC form;
/// - `DDDD-DD-DD_DD:DD:DD`, then `.`s, whitespace, fraction digits,
///   whitespace and capital letters naming the time system.
/// Fraction digits give nanoseconds as decimal places (at most nine).
/// A form whose digits are not ASCII, or whose fraction has more than nine
/// digits, cannot be read; the spaced form with an unknown time system
/// matches nothing.
pub open spec fn epoch_string_spec(s: Seq<char>) -> EpochParse {
    let n = s.len() as int;
    if is_date_form(s) {
        if date_ascii(s) {
            EpochParse::Fields(dashed_fields(s, false, 0, TimeSystem::UTC))
        } else {
            EpochParse::Panic
        }
    } else if is_iso_form(s) {
        if date_ascii(s) && clock_ascii(s) {
            EpochParse::Fields(dashed_fields(s, true, 0, TimeSystem::UTC))
        } else {
            EpochParse::Panic
        }
    } else if is_iso_fraction_form(s) {
        let f = s.subrange(20, n - 1);
        if date_ascii(s) && clock_ascii(s) && fraction_ok(f) {
            EpochParse::Fields(dashed_fields(s, true, fraction_ns(f), TimeSystem::UTC))
        } else {
            EpochParse::Panic
        }
    } else if is_iso_zoned_fraction_form(s) {
        let f = s.subrange(21, n - 1);
        if date_ascii(s) && clock_ascii(s) && fraction_ok(f) {
            EpochParse::Fields(dashed_fields(s, true, fraction_ns(f), TimeSystem::UTC))
        } else {
            EpochParse::Panic
        }
    } else if is_compact_form(s) {
        if ascii_in(s, 0, 8) && ascii_in(s, 9, 15) {
            EpochParse::Fields(compact_fields(s))
        } else {
            EpochParse::Panic
        }
    } else if is_spaced_form(s) {
        let f = s.subrange(tail_p2(s), tail_p3(s));
        if !(date_ascii(s) && clock_ascii(s) && fraction_ok(f)) {
            EpochParse::Panic
        } else {
            match time_system_named(s.subrange(tail_p4(s), n)) {
                Some(ts) => EpochParse::Fields(dashed_fields(s, true, fraction_ns(f), ts)),
                None => EpochParse::NoMatch,
            }
        }
    } else {
        EpochParse::NoMatch
    }
}


fn decimal_digit(c: char) -> (r: bool)
    ensures
        r == is_decimal_digit(c),
{
    let x = c as u32;
    (0x30 <= x && x <= 0x39) ||
        (0x660 <= x && x <= 0x669) ||
        (0x6F0 <= x && x <= 0x6F9) ||
        (0x7C0 <= x && x <= 0x7C9) ||
        (0x966 <= x && x <= 0x96F) ||
        (0x9E6 <= x && x <= 0x9EF) ||
        (0xA66 <= x && x <= 0xA6F) ||
        (0xAE6 <= x && x <= 0xAEF) ||
        (0xB66 <= x && x <= 0xB6F) ||
        (0xBE6 <= x && x <= 0xBEF) ||
        (0xC66 <= x && x <= 0xC6F) ||
        (0xCE6 <= x && x <= 0xCEF) ||
        (0xD66 <= x && x <= 0xD6F) ||
        (0xDE6 <= x && x <= 0xDEF) ||
        (0xE50 <= x && x <= 0xE59) ||
        (0xED0 <= x && x <= 0xED9) ||
        (0xF20 <= x && x <= 0xF29) ||
        (0x1040 <= x && x <= 0x1049) ||
        (0x1090 <= x && x <= 0x1099) ||
        (0x17E0 <= x && x <= 0x17E9) ||
        (0x1810 <= x && x <= 0x1819) ||
        (0x1946 <= x && x <= 0x194F) ||
        (0x19D0 <= x && x <= 0x19D9) ||
        (0x1A80 <= x && x <= 0x1A89) ||
        (0x1A90 <= x && x <= 0x1A99) ||
        (0x1B50 <= x && x <= 0x1B59) ||
        (0x1BB0 <= x && x <= 0x1BB9) ||
        (0x1C40 <= x && x <= 0x1C49) ||
        (0x1C50 <= x && x <= 0x1C59) ||
        (0xA620 <= x && x <= 0xA629) ||
        (0xA8D0 <= x && x <= 0xA8D9) ||
        (0xA900 <= x && x <= 0xA909) ||
        (0xA9D0 <= x && x <= 0xA9D9) ||
        (0xA9F0 <= x && x <= 0xA9F9) ||
        (0xAA50 <= x && x <= 0xAA59) ||
        (0xABF0 <= x && x <= 0xABF9) ||
        (0xFF10 <= x && x <= 0xFF19) ||
        (0x104A0 <= x && x <= 0x104A9) ||
        (0x10D30 <= x && x <= 0x10D39) ||
        (0x10D40 <= x && x <= 0x10D49) ||
        (0x11066 <= x && x <= 0x1106F) ||
        (0x110F0 <= x && x <= 0x110F9) ||
        (0x11136 <= x && x <= 0x1113F) ||
        (0x111D0 <= x && x <= 0x111D9) ||
        (0x112F0 <= x && x <= 0x112F9) ||
        (0x11450 <= x && x <= 0x11459) ||
        (0x114D0 <= x && x <= 0x114D9) ||
        (0x11650 <= x && x <= 0x11659) ||
        (0x116C0 <= x && x <= 0x116C9) ||
        (0x116D0 <= x && x <= 0x116E3) ||
        (0x11730 <= x && x <= 0x11739) ||
        (0x118E0 <= x && x <= 0x118E9) ||
        (0x11950 <= x && x <= 0x11959) ||
        (0x11BF0 <= x && x <= 0x11BF9) ||
        (0x11C50 <= x && x <= 0x11C59) ||
        (0x11D50 <= x && x <= 0x11D59) ||
        (0x11DA0 <= x && x <= 0x11DA9) ||
        (0x11F50 <= x && x <= 0x11F59) ||
        (0x16130 <= x && x <= 0x16139) ||
        (0x16A60 <= x && x <= 0x16A69) ||
        (0x16AC0 <= x && x <= 0x16AC9) ||
        (0x16B50 <= x && x <= 0x16B59) ||
        (0x16D70 <= x && x <= 0x16D79) ||
        (0x1CCF0 <= x && x <= 0x1CCF9) ||
        (0x1D7CE <= x && x <= 0x1D7FF) ||
        (0x1E140 <= x && x <= 0x1E149) ||
        (0x1E2F0 <= x && x <= 0x1E2F9) ||
        (0x1E4F0 <= x && x <= 0x1E4F9) ||
        (0x1E5F1 <= x && x <= 0x1E5FA) ||
        (0x1E950 <= x && x <= 0x1E959) ||
        (0x1FBF0 <= x && x <= 0x1FBF9)
}

fn white_space(c: char) -> (r: bool)
    ensures
        r == is_white_space(c),
{
    let x = c as u32;
    (9 <= x && x <= 13) || x == 32 || x == 0x85 || x == 0xA0 || x == 0x1680 || (0x2000 <= x && x
        <= 0x200A) || x == 0x2028 || x == 0x2029 || x == 0x202F || x == 0x205F || x == 0x3000
}

fn ascii_digit(c: char) -> (r: bool)
    ensures
        r == is_ascii_digit(c),
{
    let x = c as u32;
    48 <= x && x <= 57
}

fn digits_in_exec(v: &Vec<char>, a: usize, b: usize) -> (r: bool)
    requires
        a <= b <= v.len(),
    ensures
        r == digits_in(v@, a as int, b as int),
{
    let mut i = a;
    while i < b
        invariant
            a <= i <= b <= v.len(),
            digits_in(v@, a as int, i as int),
        decreases b - i,
    {
        if !decimal_digit(v[i]) {
            return false;
        }
        i = i + 1;
    }
    true
}

fn ascii_in_exec(v: &Vec<char>, a: usize, b: usize) -> (r: bool)
    requires
        a <= b <= v.len(),
    ensures
        r == ascii_in(v@, a as int, b as int),
{
    let mut i = a;
    while i < b
        invariant
            a <= i <= b <= v.len(),
            ascii_in(v@, a as int, i as int),
        decreases b - i,
    {
        if !ascii_digit(v[i]) {
            return false;
        }
        i = i + 1;
    }
    true
}

fn run_end_exec(v: &Vec<char>, i: usize, k: TailClass) -> (r: usize)
    requires
        i <= v.len(),
    ensures
        r == run_end(v@, i as int, k),
        i <= r <= v.len(),
{
    let mut j = i;
    loop
        invariant
            i <= j <= v.len(),
            run_end(v@, i as int, k) == run_end(v@, j as int, k),
        decreases v.len() - j,
    {
        if j >= v.len() {
            return j;
        }
        let c = v[j];
        let inside = match k {
            TailClass::Dot => c == '.',
            TailClass::Space => white_space(c),
            TailClass::Digit => decimal_digit(c),
            TailClass::Upper => {
                let x = c as u32;
                65 <= x && x <= 90
            },
        };
        if !inside {
            return j;
        }
        j = j + 1;
    }
}

proof fn lemma_dval_bound(s: Seq<char>)
    requires
        ascii_in(s, 0, s.len() as int),
    ensures
        dval(s) < pow10(s.len()),
    decreases s.len(),
{
    if s.len() > 0 {
        assert(ascii_in(s.drop_last(), 0, s.drop_last().len() as int)) by {
            assert forall|i: int| 0 <= i < s.drop_last().len() implies is_ascii_digit(
                #[trigger] s.drop_last()[i],
            ) by {
                assert(s.drop_last()[i] == s[i]);
            }
        }
        lemma_dval_bound(s.drop_last());
        assert(is_ascii_digit(s[s.len() - 1]));
    }
}

/// Value of the ASCII digits `v[a..b]`.
fn value_at(v: &Vec<char>, a: usize, b: usize) -> (r: u32)
    requires
        a <= b <= v.len(),
        b - a <= 9,
        ascii_in(v@, a as int, b as int),
    ensures
        r == dval_at(v@, a as int, b as int),
        r < pow10((b - a) as nat),
{
    let mut acc: u32 = 0;
    let mut i = a;
    assert(v@.subrange(a as int, a as int) =~= Seq::<char>::empty());
    while i < b
        invariant
            a <= i <= b <= v.len(),
            b - a <= 9,
            ascii_in(v@, a as int, b as int),
            acc == dval(v@.subrange(a as int, i as int)),
            acc < pow10((i - a) as nat),
            pow10((i - a) as nat) <= 1_000_000_000,
        decreases b - i,
    {
        assert(v@.subrange(a as int, (i + 1) as int).drop_last() =~= v@.subrange(
            a as int,
            i as int,
        ));
        assert(is_ascii_digit(v@[i as int]));
        let d = (v[i] as u32) - 48;
        proof {
            lemma_pow10_le_billion((i + 1 - a) as nat);
        }
        acc = acc * 10 + d;
        i = i + 1;
    }
    acc
}

proof fn lemma_pow10_le_billion(n: nat)
    requires
        n <= 9,
    ensures
        pow10(n) <= 1_000_000_000,
{
    reveal_with_fuel(pow10, 10);
}

/// Nanoseconds given by the fraction digits `v[a..b]`.
fn fraction_value(v: &Vec<char>, a: usize, b: usize) -> (r: u32)
    requires
        a <= b <= v.len(),
        fraction_ok(v@.subrange(a as int, b as int)),
    ensures
        r == fraction_ns(v@.subrange(a as int, b as int)),
{
    let ghost f = v@.subrange(a as int, b as int);
    if a == b {
        return 0;
    }
    assert(ascii_in(v@, a as int, b as int)) by {
        assert forall|i: int| a <= i < b implies is_ascii_digit(#[trigger] v@[i]) by {
            assert(v@[i] == f[i - a]);
        }
    }
    let x = value_at(v, a, b);
    let mut acc = x;
    let mut k: usize = b - a;
    proof {
        lemma_pow10_le_billion(k as nat);
        assert(pow10(0) == 1);
        assert((k - (b - a)) as nat == 0);
    }
    while k < 9
        invariant
            b - a <= k <= 9,
            acc == x * pow10((k - (b - a)) as nat),
            acc < pow10(k as nat),
            pow10(k as nat) <= 1_000_000_000,
        decreases 9 - k,
    {
        proof {
            lemma_pow10_le_billion((k + 1) as nat);
            assert(x * pow10((k + 1 - (b - a)) as nat) == x * (10 * pow10((k - (b - a)) as nat)));
            assert(x * (10 * pow10((k - (b - a)) as nat)) == 10 * (x * pow10((k - (b - a)) as nat))) by (nonlinear_arith);
        }
        acc = acc * 10;
        k = k + 1;
    }
    acc
}


fn date_ok_exec(v: &Vec<char>) -> (r: bool)
    ensures
        r == date_ok(v@),
{
    v.len() >= 10 && digits_in_exec(v, 0, 4) && v[4] == '-' && digits_in_exec(v, 5, 7) && v[7]
        == '-' && digits_in_exec(v, 8, 10)
}

fn clock_ok_exec(v: &Vec<char>) -> (r: bool)
    ensures
        r == clock_ok(v@),
{
    v.len() >= 19 && digits_in_exec(v, 11, 13) && v[13] == ':' && digits_in_exec(v, 14, 16)
        && v[16] == ':' && digits_in_exec(v, 17, 19)
}

fn date_ascii_exec(v: &Vec<char>) -> (r: bool)
    requires
        v.len() >= 10,
    ensures
        r == date_ascii(v@),
{
    ascii_in_exec(v, 0, 4) && ascii_in_exec(v, 5, 7) && ascii_in_exec(v, 8, 10)
}

fn clock_ascii_exec(v: &Vec<char>) -> (r: bool)
    requires
        v.len() >= 19,
    ensures
        r == clock_ascii(v@),
{
    ascii_in_exec(v, 11, 13) && ascii_in_exec(v, 14, 16) && ascii_in_exec(v, 17, 19)
}

/// Value of two ASCII digits as a `u8`.
fn two_digits(v: &Vec<char>, a: usize) -> (r: u8)
    requires
        a + 2 <= v.len(),
        ascii_in(v@, a as int, a + 2),
    ensures
        r == dval_at(v@, a as int, a + 2),
{
    let x = value_at(v, a, a + 2);
    assert(pow10(2) == 100) by {
        reveal_with_fuel(pow10, 3);
    }
    x as u8
}

fn dashed_fields_exec(v: &Vec<char>, clock: bool, ns: u32, ts: TimeSystem) -> (r: EpochFields)
    requires
        v.len() >= 19 || (!clock && v.len() >= 10),
        date_ascii(v@),
        clock ==> clock_ascii(v@),
    ensures
        r == dashed_fields(v@, clock, ns as nat, ts),
{
    let year = value_at(v, 0, 4);
    let month = two_digits(v, 5);
    let day = two_digits(v, 8);
    let (hour, minute, second) = if clock {
        (two_digits(v, 11), two_digits(v, 14), two_digits(v, 17))
    } else {
        (0u8, 0u8, 0u8)
    };
    EpochFields { year, month, day, hour, minute, second, nanosecond: ns, time_system: ts }
}

fn compact_fields_exec(v: &Vec<char>) -> (r: EpochFields)
    requires
        v.len() == 16,
        ascii_in(v@, 0, 8),
        ascii_in(v@, 9, 15),
    ensures
        r == compact_fields(v@),
{
    EpochFields {
        year: value_at(v, 0, 4),
        month: two_digits(v, 4),
        day: two_digits(v, 6),
        hour: two_digits(v, 9),
        minute: two_digits(v, 11),
        second: two_digits(v, 13),
        nanosecond: 0,
        time_system: TimeSystem::UTC,
    }
}

fn fraction_ok_exec(v: &Vec<char>, a: usize, b: usize) -> (r: bool)
    requires
        a <= b <= v.len(),
    ensures
        r == fraction_ok(v@.subrange(a as int, b as int)),
{
    let ghost f = v@.subrange(a as int, b as int);
    if a == b {
        return true;
    }
    if b - a > 9 {
        return false;
    }
    let r = ascii_in_exec(v, a, b);
    assert(r == ascii_in(f, 0, f.len() as int)) by {
        if r {
            assert forall|i: int| 0 <= i < f.len() implies is_ascii_digit(#[trigger] f[i]) by {
                assert(f[i] == v@[a + i]);
            }
        } else {
            let j = choose|j: int| a <= j < b && !is_ascii_digit(#[trigger] v@[j]);
            assert(f[j - a] == v@[j]);
        }
    }
    r
}

/// Reads the epoch string whose characters are `v`.
fn epoch_outcome(v: &Vec<char>) -> (r: EpochParse)
    ensures
        r == epoch_string_spec(v@),
{
    let n = v.len();
    if n == 10 && date_ok_exec(v) {
        if date_ascii_exec(v) {
            EpochParse::Fields(dashed_fields_exec(v, false, 0, TimeSystem::UTC))
        } else {
            EpochParse::Panic
        }
    } else if n == 20 && date_ok_exec(v) && v[10] == 'T' && clock_ok_exec(v) && v[19] == 'Z' {
        if date_ascii_exec(v) && clock_ascii_exec(v) {
            EpochParse::Fields(dashed_fields_exec(v, true, 0, TimeSystem::UTC))
        } else {
            EpochParse::Panic
        }
    } else if n >= 21 && date_ok_exec(v) && v[10] == 'T' && clock_ok_exec(v) && v[19] == '.'
        && digits_in_exec(v, 20, n - 1) && v[n - 1] == 'Z' {
        if date_ascii_exec(v) && clock_ascii_exec(v) && fraction_ok_exec(v, 20, n - 1) {
            let ns = fraction_value(v, 20, n - 1);
            EpochParse::Fields(dashed_fields_exec(v, true, ns, TimeSystem::UTC))
        } else {
            EpochParse::Panic
        }
    } else if n >= 22 && date_ok_exec(v) && v[10] == 'T' && clock_ok_exec(v) && v[19] == 'Z'
        && v[20] == '.' && digits_in_exec(v, 21, n - 1) && v[n - 1] == 'Z' {
        if date_ascii_exec(v) && clock_ascii_exec(v) && fraction_ok_exec(v, 21, n - 1) {
            let ns = fraction_value(v, 21, n - 1);
            EpochParse::Fields(dashed_fields_exec(v, true, ns, TimeSystem::UTC))
        } else {
            EpochParse::Panic
        }
    } else if n == 16 && digits_in_exec(v, 0, 8) && v[8] == 'T' && digits_in_exec(v, 9, 15)
        && v[15] == 'Z' {
        if ascii_in_exec(v, 0, 8) && ascii_in_exec(v, 9, 15) {
            EpochParse::Fields(compact_fields_exec(v))
        } else {
            EpochParse::Panic
        }
    } else if n >= 19 && date_ok_exec(v) && white_space(v[10]) && clock_ok_exec(v) {
        let p1 = run_end_exec(v, 19, TailClass::Dot);
        let p2 = run_end_exec(v, p1, TailClass::Space);
        let p3 = run_end_exec(v, p2, TailClass::Digit);
        let p4 = run_end_exec(v, p3, TailClass::Space);
        let p5 = run_end_exec(v, p4, TailClass::Upper);
        if p5 != n {
            return EpochParse::NoMatch;
        }
        if !(date_ascii_exec(v) && clock_ascii_exec(v) && fraction_ok_exec(v, p2, p3)) {
            return EpochParse::Panic;
        }
        let ns = fraction_value(v, p2, p3);
        let ghost letters = v@.subrange(p4 as int, n as int);
        let mut ts_chars: Vec<char> = Vec::new();
        let mut i = p4;
        while i < n
            invariant
                p4 <= i <= n,
                n == v.len(),
                ts_chars@ == v@.subrange(p4 as int, i as int),
            decreases n - i,
        {
            ts_chars.push(v[i]);
            i = i + 1;
            assert(ts_chars@ =~= v@.subrange(p4 as int, i as int));
        }
        match time_system_of_chars(&ts_chars) {
            Some(ts) => EpochParse::Fields(dashed_fields_exec(v, true, ns, ts)),
            None => EpochParse::NoMatch,
        }
    } else {
        EpochParse::NoMatch
    }
}

/// Whether the characters `v` equal the characters of `w`.
fn chars_are(v: &Vec<char>, w: &str) -> (r: bool)
    ensures
        r == (v@ == w@),
{
    let w_chars = chars_of(w);
    if v.len() != w_chars.len() {
        return false;
    }
    let mut i: usize = 0;
    while i < v.len()
        invariant
            v.len() == w_chars.len(),
            w_chars@ == w@,
            i <= v.len(),
            forall|j: int| 0 <= j < i ==> v@[j] == w@[j],
        decreases v.len() - i,
    {
        if v[i] != w_chars[i] {
            return false;
        }
        i = i + 1;
    }
    assert(v@ =~= w@);
    true
}

fn time_system_of_chars(v: &Vec<char>) -> (r: Option<TimeSystem>)
    ensures
        r == time_system_named(v@),
{
    if chars_are(v, "GPS") {
        Some(TimeSystem::GPS)
    } else if chars_are(v, "TAI") {
        Some(TimeSystem::TAI)
    } else if chars_are(v, "TT") {
        Some(TimeSystem::TT)
    } else if chars_are(v, "UTC") {
        Some(TimeSystem::UTC)
    } else if chars_are(v, "UT1") {
        Some(TimeSystem::UT1)
    } else {
        None
    }
}

/// Reads the calendar fields and time system of an epoch string in one of
/// the forms that `epoch_string_spec` describes, e.g. `"2022-04-01"`,
/// `"2022-04-01T01:02:03Z"`, `"2022-04-01T01:02:03.456Z"`, `"2022-04-01T01:02:03Z.456Z"`,
/// `"20220401T010203Z"` or `"2022-04-01 01:02:03.456 GPS"`.
pub fn parse_epoch_string(datestr: &str) -> (r: Option<EpochFields>)
    requires
        !(epoch_string_spec(datestr@) is Panic),
    ensures
        match epoch_string_spec(datestr@) {
            EpochParse::Fields(f) => r == Some(f),
            EpochParse::NoMatch => r is None,
            EpochParse::Panic => false,
        },
{
    let v = chars_of(datestr);
    match epoch_outcome(&v) {
        EpochParse::Fields(f) => Some(f),
        _ => None,
    }
}

/// Whether `datestr` has an epoch form whose digits cannot be read (non-ASCII
/// decimal digits, or more than nine fraction digits).
pub fn epoch_string_panics(datestr: &str) -> (b: bool)
    ensures
        b == (epoch_string_spec(datestr@) is Panic),
{
    let v = chars_of(datestr);
    match epoch_outcome(&v) {
        EpochParse::Panic => true,
        _ => false,
    }
}


/// Whole GPS seconds, and the nanoseconds beyond them, in a count of
/// nanoseconds since the GPS epoch.
pub fn split_gps_nanoseconds(gps_nanoseconds: u64) -> (r: (u64, u64))
    ensures
        r.0 == gps_nanoseconds / 1_000_000_000,
        r.1 == gps_nanoseconds % 1_000_000_000,
        r.0 * 1_000_000_000 + r.1 == gps_nanoseconds,
{
    (gps_nanoseconds / 1_000_000_000, gps_nanoseconds % 1_000_000_000)
}

/// Reading a time system's name gives back that time system.
pub proof fn lemma_time_system_name_roundtrip(ts: TimeSystem)
    ensures
        time_system_named(time_system_name(ts)) == Some(ts),
{
    reveal_strlit("GPS");
    reveal_strlit("TAI");
    reveal_strlit("TT");
    reveal_strlit("UTC");
    reveal_strlit("UT1");
    match ts {
        TimeSystem::GPS => {},
        TimeSystem::TAI => {
            assert("TAI"@[0] != "GPS"@[0]);
        },
        TimeSystem::TT => {
            assert("TT"@.len() != "GPS"@.len());
            assert("TT"@.len() != "TAI"@.len());
        },
        TimeSystem::UTC => {
            assert("UTC"@[0] != "GPS"@[0]);
            assert("UTC"@[0] != "TAI"@[0]);
            assert("UTC"@.len() != "TT"@.len());
        },
        TimeSystem::UT1 => {
            assert("UT1"@[0] != "GPS"@[0]);
            assert("UT1"@[0] != "TAI"@[0]);
            assert("UT1"@.len() != "TT"@.len());
            assert("UT1"@[2] != "UTC"@[2]);
        },
    }
}

/// Each time system is named by its own acronym.
pub proof fn lemma_time_system_acronyms(ts: TimeSystem)
    ensures
        ts == TimeSystem::GPS <==> time_system_name(ts) == "GPS"@,
        ts == TimeSystem::TAI <==> time_system_name(ts) == "TAI"@,
        ts == TimeSystem::TT <==> time_system_name(ts) == "TT"@,
        ts == TimeSystem::UTC <==> time_system_name(ts) == "UTC"@,
        ts == TimeSystem::UT1 <==> time_system_name(ts) == "UT1"@,
{
    lemma_time_system_name_roundtrip(ts);
    lemma_time_system_name_roundtrip(TimeSystem::GPS);
    lemma_time_system_name_roundtrip(TimeSystem::TAI);
    lemma_time_system_name_roundtrip(TimeSystem::TT);
    lemma_time_system_name_roundtrip(TimeSystem::UTC);
    lemma_time_system_name_roundtrip(TimeSystem::UT1);
}

/// A text that names a time system is exactly that time system's name.
pub proof fn lemma_time_system_named_is_name(s: Seq<char>)
    ensures
        time_system_named(s) matches Some(ts) ==> time_system_name(ts) == s,
{
}

/// Every epoch string that is read yields calendar fields in range of their
/// two-digit (four for the year) columns and a nanosecond count below one
/// second; the ISO and compact forms are always UTC.
pub proof fn lemma_epoch_fields_in_range(s: Seq<char>)
    ensures
        epoch_string_spec(s) matches EpochParse::Fields(f) ==> {
            &&& f.year < 10000
            &&& f.month < 100
            &&& f.day < 100
            &&& f.hour < 100
            &&& f.minute < 100
            &&& f.second < 100
            &&& f.nanosecond < 1_000_000_000
            &&& !is_spaced_form(s) ==> f.time_system == TimeSystem::UTC
        },
{
    if let EpochParse::Fields(f) = epoch_string_spec(s) {
        reveal_with_fuel(pow10, 10);
        let n = s.len() as int;
        if is_compact_form(s) && !is_date_form(s) && !is_iso_form(s) && !is_iso_fraction_form(s)
            && !is_iso_zoned_fraction_form(s) {
            lemma_ascii_range_bound(s, 0, 4);
            lemma_ascii_range_bound(s, 4, 6);
            lemma_ascii_range_bound(s, 6, 8);
            lemma_ascii_range_bound(s, 9, 11);
            lemma_ascii_range_bound(s, 11, 13);
            lemma_ascii_range_bound(s, 13, 15);
        } else {
            lemma_ascii_range_bound(s, 0, 4);
            lemma_ascii_range_bound(s, 5, 7);
            lemma_ascii_range_bound(s, 8, 10);
            if !is_date_form(s) {
                lemma_ascii_range_bound(s, 11, 13);
                lemma_ascii_range_bound(s, 14, 16);
                lemma_ascii_range_bound(s, 17, 19);
            }
            if is_iso_fraction_form(s) && !is_date_form(s) && !is_iso_form(s) {
                lemma_fraction_below_second(s.subrange(20, n - 1));
            }
            if is_iso_zoned_fraction_form(s) && !is_date_form(s) && !is_iso_form(s)
                && !is_iso_fraction_form(s) {
                lemma_fraction_below_second(s.subrange(21, n - 1));
            }
            if is_spaced_form(s) && !is_date_form(s) && !is_iso_form(s) && !is_iso_fraction_form(s)
                && !is_iso_zoned_fraction_form(s) && !is_compact_form(s) {
                lemma_fraction_below_second(s.subrange(tail_p2(s), tail_p3(s)));
            }
        }
    }
}

/// A date and time in the spaced form, followed by one space and a time
/// system's name, is read as that date and time in that time system, with no
/// fraction of a second; this holds for every time system but UT1, whose
/// name holds a digit that the form's capital letters cannot match.
pub proof fn lemma_spaced_form_reads_time_system(s: Seq<char>, ts: TimeSystem)
    requires
        ts != TimeSystem::UT1,
        s.len() == 20 + time_system_name(ts).len(),
        date_ascii(s),
        s[4] == '-',
        s[7] == '-',
        s[10] == ' ',
        clock_ascii(s),
        s[13] == ':',
        s[16] == ':',
        s[19] == ' ',
        s.subrange(20, s.len() as int) == time_system_name(ts),
    ensures
        epoch_string_spec(s) == EpochParse::Fields(dashed_fields(s, true, 0, ts)),
{
    reveal_strlit("GPS");
    reveal_strlit("TAI");
    reveal_strlit("TT");
    reveal_strlit("UTC");
    let n = s.len() as int;
    let name = time_system_name(ts);
    assert(name.len() == 2 || name.len() == 3);
    assert forall|i: int| 20 <= i < n implies is_ascii_upper(#[trigger] s[i]) by {
        assert(s[i] == name[i - 20]);
    }
    assert(date_ok(s));
    assert(clock_ok(s));
    assert(run_end(s, 19, TailClass::Dot) == 19);
    assert(!is_white_space(s[20]) && !is_decimal_digit(s[20]));
    assert(run_end(s, 20, TailClass::Space) == 20);
    assert(run_end(s, 19, TailClass::Space) == 20);
    assert(run_end(s, 20, TailClass::Digit) == 20);
    assert(run_end(s, n, TailClass::Upper) == n);
    assert(run_end(s, n - 1, TailClass::Upper) == n);
    assert(run_end(s, n - 2, TailClass::Upper) == n);
    if name.len() == 3 {
        assert(run_end(s, n - 3, TailClass::Upper) == n);
    }
    assert(tail_p5(s) == n);
    assert(is_spaced_form(s));
    assert(s.subrange(20, 20).len() == 0);
    lemma_time_system_name_roundtrip(ts);
}

proof fn lemma_ascii_range_bound(s: Seq<char>, a: int, b: int)
    requires
        0 <= a <= b <= s.len(),
        ascii_in(s, a, b),
    ensures
        dval_at(s, a, b) < pow10((b - a) as nat),
{
    let t = s.subrange(a, b);
    assert forall|i: int| 0 <= i < t.len() implies is_ascii_digit(#[trigger] t[i]) by {
        assert(t[i] == s[a + i]);
    }
    lemma_dval_bound(t);
}

proof fn lemma_fraction_below_second(f: Seq<char>)
    requires
        fraction_ok(f),
    ensures
        fraction_ns(f) < 1_000_000_000,
{
    if f.len() > 0 {
        lemma_dval_bound(f);
        lemma_pow10_add(f.len(), (9 - f.len()) as nat);
        reveal_with_fuel(pow10, 10);
        let x = dval(f);
        let p = pow10((9 - f.len()) as nat);
        assert(x < pow10(f.len()));
        assert(pow10(f.len()) * p == 1_000_000_000);
        assert(x * p < pow10(f.len()) * p) by (nonlinear_arith)
            requires
                x < pow10(f.len()),
                p > 0,
        ;
    }
}

proof fn lemma_pow10_add(a: nat, b: nat)
    ensures
        pow10(a) * pow10(b) == pow10(a + b),
        pow10(b) > 0,
    decreases a,
{
    if a > 0 {
        lemma_pow10_add((a - 1) as nat, b);
        assert(pow10(a + b) == 10 * pow10((a - 1 + b) as nat));
        assert(pow10(a) * pow10(b) == 10 * (pow10((a - 1) as nat) * pow10(b))) by (nonlinear_arith)
            requires
                pow10(a) == 10 * pow10((a - 1) as nat),
        ;
    } else {
        lemma_pow10_pos(b);
        assert(pow10(0) == 1);
        assert(a + b == b);
    }
}

proof fn lemma_pow10_pos(b: nat)
    ensures
        pow10(b) > 0,
    decreases b,
{
    if b > 0 {
        lemma_pow10_pos((b - 1) as nat);
    }
}

} // verus!
