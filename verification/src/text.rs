//! Byte-level text primitives shared by the parsers: Unicode-whitespace
//! trimming, char-boundary checks and the decimal number grammars of the
//! standard library's `u32` and `f64` parsers.
use vstd::prelude::*;
use vstd::string::StrSliceExecFns;

verus! {

/// Why a field failed to parse as a number.
#[derive(Debug, Clone, Copy, PartialEq, Eq, Structural)]
pub enum NumberError {
    /// Integer field was empty after trimming.
    IntEmpty,
    /// Integer field holds a character that is not a decimal digit.
    IntInvalidDigit,
    /// Integer field is larger than the target type can hold.
    IntPosOverflow,
    /// Floating-point field was empty after trimming.
    FloatEmpty,
    /// Floating-point field is not a valid float literal.
    FloatInvalid,
}

pub open spec fn is_digit_byte(b: u8) -> bool {
    48 <= b <= 57
}

/// Value of an ASCII decimal digit byte.
pub open spec fn digit_value(b: u8) -> int {
    b - 48
}

/// `i` is a char boundary of `s`: the start, the end, or a byte that is
/// not a UTF-8 continuation byte.
pub open spec fn is_boundary(s: Seq<u8>, i: int) -> bool {
    i == 0 || i == s.len() || (0 <= i < s.len() && !(0x80 <= s[i] < 0xC0))
}

/// The byte range `a..b` of `s` can be taken as a sub-string.
pub open spec fn slice_ok(s: Seq<u8>, a: int, b: int) -> bool {
    &&& 0 <= a <= b <= s.len()
    &&& is_boundary(s, a)
    &&& is_boundary(s, b)
}

/// Three-byte UTF-8 encodings of Unicode `White_Space` characters
/// (U+1680, U+2000..U+200A, U+2028, U+2029, U+202F, U+205F, U+3000).
pub open spec fn is_ws3(a: u8, b: u8, c: u8) -> bool {
    ||| (a == 0xE1 && b == 0x9A && c == 0x80)
    ||| (a == 0xE2 && b == 0x80 && ((0x80 <= c <= 0x8A) || c == 0xA8 || c == 0xA9 || c == 0xAF))
    ||| (a == 0xE2 && b == 0x81 && c == 0x9F)
    ||| (a == 0xE3 && b == 0x80 && c == 0x80)
}

/// One-byte Unicode `White_Space` characters (U+0009..U+000D, U+0020).
pub open spec fn is_ws1(a: u8) -> bool {
    (9 <= a <= 13) || a == 32
}

/// Two-byte encodings of U+0085 and U+00A0.
pub open spec fn is_ws2(a: u8, b: u8) -> bool {
    a == 0xC2 && (b == 0x85 || b == 0xA0)
}

/// Length of the whitespace character encoded at the start of `s`, or 0.
pub open spec fn ws_prefix_len(s: Seq<u8>) -> int {
    if s.len() >= 1 && is_ws1(s[0]) {
        1
    } else if s.len() >= 2 && is_ws2(s[0], s[1]) {
        2
    } else if s.len() >= 3 && is_ws3(s[0], s[1], s[2]) {
        3
    } else {
        0
    }
}

/// Length of the whitespace character encoded at the end of `s`, or 0.
pub open spec fn ws_suffix_len(s: Seq<u8>) -> int {
    let n = s.len() as int;
    if n >= 1 && is_ws1(s[n - 1]) {
        1
    } else if n >= 2 && is_ws2(s[n - 2], s[n - 1]) {
        2
    } else if n >= 3 && is_ws3(s[n - 3], s[n - 2], s[n - 1]) {
        3
    } else {
        0
    }
}

/// `s` without its leading whitespace.
pub open spec fn trim_start(s: Seq<u8>) -> Seq<u8>
    decreases s.len(),
{
    if ws_prefix_len(s) > 0 {
        trim_start(s.skip(ws_prefix_len(s)))
    } else {
        s
    }
}

/// `s` without its trailing whitespace.
pub open spec fn trim_end(s: Seq<u8>) -> Seq<u8>
    decreases s.len(),
{
    if ws_suffix_len(s) > 0 {
        trim_end(s.take(s.len() - ws_suffix_len(s)))
    } else {
        s
    }
}

/// `s` without leading and trailing Unicode whitespace, as `str::trim` gives it.
pub open spec fn trim(s: Seq<u8>) -> Seq<u8> {
    trim_end(trim_start(s))
}

/// Left-to-right accumulation of a digit string into a `u32`, failing at the
/// first non-digit or at the first digit that makes the value too large.
pub open spec fn u32_digits(d: Seq<u8>) -> Result<u32, NumberError>
    decreases d.len(),
{
    if d.len() == 0 {
        Ok(0u32)
    } else {
        match u32_digits(d.drop_last()) {
            Err(e) => Err(e),
            Ok(v) => {
                if !is_digit_byte(d.last()) {
                    Err(NumberError::IntInvalidDigit)
                } else if v * 10 + digit_value(d.last()) > u32::MAX {
                    Err(NumberError::IntPosOverflow)
                } else {
                    Ok((v * 10 + digit_value(d.last())) as u32)
                }
            },
        }
    }
}

/// What `u32::from_str` gives for the text `s`.
pub open spec fn parse_u32_spec(s: Seq<u8>) -> Result<u32, NumberError> {
    if s.len() == 0 {
        Err(NumberError::IntEmpty)
    } else if s.len() == 1 && (s[0] == 43 || s[0] == 45) {
        Err(NumberError::IntInvalidDigit)
    } else if s[0] == 43 {
        u32_digits(s.skip(1))
    } else {
        u32_digits(s)
    }
}

/// Number of leading ASCII digits of `s`.
pub open spec fn leading_digits(s: Seq<u8>) -> nat
    decreases s.len(),
{
    if s.len() > 0 && is_digit_byte(s[0]) {
        1 + leading_digits(s.skip(1))
    } else {
        0
    }
}

pub open spec fn all_digits(s: Seq<u8>) -> bool {
    forall|i: int| 0 <= i < s.len() ==> is_digit_byte(#[trigger] s[i])
}

/// An optional exponent part: empty, or `e`/`E`, an optional sign, and one
/// or more digits.
pub open spec fn exponent_ok(r: Seq<u8>) -> bool {
    r.len() == 0 || ((r[0] == 101 || r[0] == 69) && {
        let r1 = r.skip(1);
        let r2 = if r1.len() > 0 && (r1[0] == 43 || r1[0] == 45) {
            r1.skip(1)
        } else {
            r1
        };
        r2.len() > 0 && all_digits(r2)
    })
}

/// `Digit+ | Digit+ '.' Digit* | Digit* '.' Digit+`, then an optional exponent.
pub open spec fn decimal_ok(t: Seq<u8>) -> bool {
    let i = leading_digits(t);
    let r = t.skip(i as int);
    if r.len() > 0 && r[0] == 46 {
        let j = leading_digits(r.skip(1));
        i + j > 0 && exponent_ok(r.skip(1 + j as int))
    } else {
        i > 0 && exponent_ok(r)
    }
}

pub open spec fn lower_byte(b: u8) -> u8 {
    if 65 <= b <= 90 {
        (b + 32) as u8
    } else {
        b
    }
}

pub open spec fn lower(t: Seq<u8>) -> Seq<u8> {
    t.map_values(|b: u8| lower_byte(b))
}

/// `inf`, `infinity` or `nan`, in any letter case.
pub open spec fn special_ok(t: Seq<u8>) -> bool {
    let l = lower(t);
    ||| l == seq![105u8, 110, 102]
    ||| l == seq![105u8, 110, 102, 105, 110, 105, 116, 121]
    ||| l == seq![110u8, 97, 110]
}

/// The grammar that `f64::from_str` accepts: an optional sign, then
/// `inf`/`infinity`/`nan` or a decimal number with optional exponent.
pub open spec fn is_float_literal(s: Seq<u8>) -> bool {
    let t = if s.len() > 0 && (s[0] == 43 || s[0] == 45) {
        s.skip(1)
    } else {
        s
    };
    special_ok(t) || decimal_ok(t)
}

/// Whether `f64::from_str` accepts `s`, and if not, why.
pub open spec fn parse_f64_spec(s: Seq<u8>) -> Result<Seq<u8>, NumberError> {
    if s.len() == 0 {
        Err(NumberError::FloatEmpty)
    } else if is_float_literal(s) {
        Ok(s)
    } else {
        Err(NumberError::FloatInvalid)
    }
}


fn is_ws1_exec(a: u8) -> (r: bool)
    ensures
        r == is_ws1(a),
{
    (9 <= a && a <= 13) || a == 32
}

fn is_ws3_exec(a: u8, b: u8, c: u8) -> (r: bool)
    ensures
        r == is_ws3(a, b, c),
{
    (a == 0xE1 && b == 0x9A && c == 0x80) || (a == 0xE2 && b == 0x80 && ((0x80 <= c && c
        <= 0x8A) || c == 0xA8 || c == 0xA9 || c == 0xAF)) || (a == 0xE2 && b == 0x81 && c
        == 0x9F) || (a == 0xE3 && b == 0x80 && c == 0x80)
}

/// Length of the whitespace character at the start of `s[i..b]`.
fn ws_prefix_len_at(s: &[u8], i: usize, b: usize) -> (r: usize)
    requires
        i <= b <= s.len(),
    ensures
        r == ws_prefix_len(s@.subrange(i as int, b as int)),
        r <= b - i,
{
    let n = b - i;
    if n >= 1 && is_ws1_exec(s[i]) {
        1
    } else if n >= 2 && s[i] == 0xC2 && (s[i + 1] == 0x85 || s[i + 1] == 0xA0) {
        2
    } else if n >= 3 && is_ws3_exec(s[i], s[i + 1], s[i + 2]) {
        3
    } else {
        0
    }
}

/// Length of the whitespace character at the end of `s[a..j]`.
fn ws_suffix_len_at(s: &[u8], a: usize, j: usize) -> (r: usize)
    requires
        a <= j <= s.len(),
    ensures
        r == ws_suffix_len(s@.subrange(a as int, j as int)),
        r <= j - a,
{
    let n = j - a;
    if n >= 1 && is_ws1_exec(s[j - 1]) {
        1
    } else if n >= 2 && s[j - 2] == 0xC2 && (s[j - 1] == 0x85 || s[j - 1] == 0xA0) {
        2
    } else if n >= 3 && is_ws3_exec(s[j - 3], s[j - 2], s[j - 1]) {
        3
    } else {
        0
    }
}

/// The sub-range of `s[a..b]` that `str::trim` keeps.
pub(crate) fn trim_range(s: &[u8], a: usize, b: usize) -> (r: (usize, usize))
    requires
        a <= b <= s.len(),
    ensures
        a <= r.0 <= r.1 <= b,
        s@.subrange(r.0 as int, r.1 as int) == trim(s@.subrange(a as int, b as int)),
{
    let mut i = a;
    loop
        invariant
            a <= i <= b <= s.len(),
            trim_start(s@.subrange(a as int, b as int)) == trim_start(
                s@.subrange(i as int, b as int),
            ),
        ensures
            a <= i <= b,
            trim_start(s@.subrange(a as int, b as int)) == s@.subrange(i as int, b as int),
        decreases b - i,
    {
        let k = ws_prefix_len_at(s, i, b);
        if k == 0 {
            break ;
        }
        assert(s@.subrange(i as int, b as int).skip(k as int) =~= s@.subrange(
            (i + k) as int,
            b as int,
        ));
        i = i + k;
    }
    let mut j = b;
    loop
        invariant
            i <= j <= b <= s.len(),
            trim(s@.subrange(a as int, b as int)) == trim_end(s@.subrange(i as int, j as int)),
        ensures
            i <= j <= b,
            trim(s@.subrange(a as int, b as int)) == s@.subrange(i as int, j as int),
        decreases j - i,
    {
        let k = ws_suffix_len_at(s, i, j);
        if k == 0 {
            break ;
        }
        assert(s@.subrange(i as int, j as int).take((j - i - k) as int) =~= s@.subrange(
            i as int,
            (j - k) as int,
        ));
        j = j - k;
    }
    (i, j)
}

/// `i` is a char boundary of `s`, as `str::is_char_boundary` decides it.
pub(crate) fn boundary(s: &[u8], i: usize) -> (r: bool)
    ensures
        r == is_boundary(s@, i as int),
{
    i == 0 || i == s.len() || (i < s.len() && !(0x80 <= s[i] && s[i] < 0xC0))
}

/// Whether `s[a..b]` can be taken as a sub-string.
pub(crate) fn slice_ok_exec(s: &[u8], a: usize, b: usize) -> (r: bool)
    ensures
        r == slice_ok(s@, a as int, b as int),
{
    a <= b && b <= s.len() && boundary(s, a) && boundary(s, b)
}

/// Accumulates the digits `s[a..b]` into a `u32` as `u32::from_str` does.
fn u32_digits_range(s: &[u8], a: usize, b: usize) -> (r: Result<u32, NumberError>)
    requires
        a <= b <= s.len(),
    ensures
        r == u32_digits(s@.subrange(a as int, b as int)),
{
    let mut v: u64 = 0;
    let mut i = a;
    assert(s@.subrange(a as int, a as int) =~= Seq::<u8>::empty());
    while i < b
        invariant
            a <= i <= b <= s.len(),
            v <= u32::MAX,
            u32_digits(s@.subrange(a as int, i as int)) == Ok::<u32, NumberError>(v as u32),
        decreases b - i,
    {
        assert(s@.subrange(a as int, (i + 1) as int).drop_last() =~= s@.subrange(
            a as int,
            i as int,
        ));
        let c = s[i];
        if !(48 <= c && c <= 57) {
            assert(u32_digits(s@.subrange(a as int, (i + 1) as int)) == Err::<u32, NumberError>(
                NumberError::IntInvalidDigit,
            ));
            assert(s@.subrange(a as int, b as int).take((i + 1 - a) as int) =~= s@.subrange(
                a as int,
                (i + 1) as int,
            ));
            proof {
                lemma_u32_digits_err_sticky(s@.subrange(a as int, b as int), (i + 1 - a) as int);
            }
            return Err(NumberError::IntInvalidDigit);
        }
        let nv = v * 10 + (c - 48) as u64;
        if nv > 4294967295 {
            assert(u32_digits(s@.subrange(a as int, (i + 1) as int)) == Err::<u32, NumberError>(
                NumberError::IntPosOverflow,
            ));
            assert(s@.subrange(a as int, b as int).take((i + 1 - a) as int) =~= s@.subrange(
                a as int,
                (i + 1) as int,
            ));
            proof {
                lemma_u32_digits_err_sticky(s@.subrange(a as int, b as int), (i + 1 - a) as int);
            }
            return Err(NumberError::IntPosOverflow);
        }
        v = nv;
        i = i + 1;
    }
    Ok(v as u32)
}

/// Once the accumulation of a prefix fails, the whole string fails the same way.
proof fn lemma_u32_digits_err_sticky(d: Seq<u8>, k: int)
    requires
        0 <= k <= d.len(),
        u32_digits(d.take(k)) is Err,
    ensures
        u32_digits(d) == u32_digits(d.take(k)),
    decreases d.len() - k,
{
    if k < d.len() {
        assert(d.take(k + 1).drop_last() =~= d.take(k));
        lemma_u32_digits_err_sticky(d, k + 1);
    } else {
        assert(d.take(k) =~= d);
    }
}

/// `u32::from_str` applied to `s[a..b]`.
pub(crate) fn parse_u32_range(s: &[u8], a: usize, b: usize) -> (r: Result<u32, NumberError>)
    requires
        a <= b <= s.len(),
    ensures
        r == parse_u32_spec(s@.subrange(a as int, b as int)),
{
    if a == b {
        return Err(NumberError::IntEmpty);
    }
    if b - a == 1 && (s[a] == 43 || s[a] == 45) {
        return Err(NumberError::IntInvalidDigit);
    }
    if s[a] == 43 {
        assert(s@.subrange(a as int, b as int).skip(1) =~= s@.subrange(a + 1, b as int));
        u32_digits_range(s, a + 1, b)
    } else {
        u32_digits_range(s, a, b)
    }
}

/// Index just past the run of ASCII digits that starts at `i` in `s[..b]`.
fn skip_digits(s: &[u8], i: usize, b: usize) -> (r: usize)
    requires
        i <= b <= s.len(),
    ensures
        i <= r <= b,
        r - i == leading_digits(s@.subrange(i as int, b as int)),
{
    let mut j = i;
    while j < b && 48 <= s[j] && s[j] <= 57
        invariant
            i <= j <= b <= s.len(),
            leading_digits(s@.subrange(i as int, b as int)) == (j - i) + leading_digits(
                s@.subrange(j as int, b as int),
            ),
        decreases b - j,
    {
        assert(s@.subrange(j as int, b as int).skip(1) =~= s@.subrange(j + 1, b as int));
        j = j + 1;
    }
    j
}

/// Whether `s[i..b]` is an exponent part as `exponent_ok` describes.
fn exponent_ok_range(s: &[u8], i: usize, b: usize) -> (r: bool)
    requires
        i <= b <= s.len(),
    ensures
        r == exponent_ok(s@.subrange(i as int, b as int)),
{
    let ghost r0 = s@.subrange(i as int, b as int);
    if i == b {
        return true;
    }
    if !(s[i] == 101 || s[i] == 69) {
        return false;
    }
    let mut k = i + 1;
    assert(r0.skip(1) =~= s@.subrange(k as int, b as int));
    if k < b && (s[k] == 43 || s[k] == 45) {
        assert(s@.subrange(k as int, b as int).skip(1) =~= s@.subrange(k + 1, b as int));
        k = k + 1;
    }
    let e = skip_digits(s, k, b);
    proof {
        lemma_leading_digits_all(s@.subrange(k as int, b as int));
    }
    k < b && e == b
}

/// A string is all digits exactly when all of it is leading digits.
proof fn lemma_leading_digits_all(t: Seq<u8>)
    ensures
        all_digits(t) <==> leading_digits(t) == t.len(),
        leading_digits(t) <= t.len(),
        forall|i: int| 0 <= i < leading_digits(t) ==> is_digit_byte(#[trigger] t[i]),
        leading_digits(t) < t.len() ==> !is_digit_byte(t[leading_digits(t) as int]),
    decreases t.len(),
{
    if t.len() > 0 && is_digit_byte(t[0]) {
        lemma_leading_digits_all(t.skip(1));
        assert forall|i: int| 0 <= i < leading_digits(t) implies is_digit_byte(#[trigger] t[i]) by {
            if i > 0 {
                assert(t[i] == t.skip(1)[i - 1]);
            }
        }
        if all_digits(t) {
            assert forall|i: int| 0 <= i < t.skip(1).len() implies is_digit_byte(#[trigger] t.skip(1)[i]) by {
                assert(t.skip(1)[i] == t[i + 1]);
            }
        }
    }
}

/// Whether `s[a..b]`, letter case ignored, equals the lower-case word `w`.
fn lower_equals(s: &[u8], a: usize, b: usize, w: &[u8]) -> (r: bool)
    requires
        a <= b <= s.len(),
    ensures
        r == (lower(s@.subrange(a as int, b as int)) == w@),
{
    let ghost t = s@.subrange(a as int, b as int);
    if b - a != w.len() {
        assert(lower(t).len() == t.len());
        return false;
    }
    let mut k: usize = 0;
    while k < w.len()
        invariant
            a <= b <= s.len(),
            b - a == w.len(),
            t == s@.subrange(a as int, b as int),
            k <= w.len(),
            forall|m: int| 0 <= m < k ==> lower_byte(#[trigger] t[m]) == w@[m],
        decreases w.len() - k,
    {
        let c = s[a + k];
        let lc = if 65 <= c && c <= 90 { c + 32 } else { c };
        if lc != w[k] {
            assert(lower(t)[k as int] != w@[k as int]);
            return false;
        }
        k = k + 1;
    }
    assert(lower(t) =~= w@);
    true
}

/// Whether `f64::from_str` accepts `s[a..b]`.
pub(crate) fn is_float_literal_range(s: &[u8], a: usize, b: usize) -> (r: bool)
    requires
        a <= b <= s.len(),
    ensures
        r == is_float_literal(s@.subrange(a as int, b as int)),
{
    let ghost s0 = s@.subrange(a as int, b as int);
    let mut i = a;
    if i < b && (s[i] == 43 || s[i] == 45) {
        i = i + 1;
    }
    let ghost t = s@.subrange(i as int, b as int);
    assert(t =~= (if s0.len() > 0 && (s0[0] == 43 || s0[0] == 45) {
        s0.skip(1)
    } else {
        s0
    }));
    let inf: [u8; 3] = [105, 110, 102];
    let infinity: [u8; 8] = [105, 110, 102, 105, 110, 105, 116, 121];
    let nan: [u8; 3] = [110, 97, 110];
    assert(inf@ =~= seq![105u8, 110, 102]);
    assert(infinity@ =~= seq![105u8, 110, 102, 105, 110, 105, 116, 121]);
    assert(nan@ =~= seq![110u8, 97, 110]);
    if lower_equals(s, i, b, inf.as_slice()) || lower_equals(s, i, b, infinity.as_slice())
        || lower_equals(s, i, b, nan.as_slice()) {
        return true;
    }
    let d1 = skip_digits(s, i, b);
    assert(t.skip((d1 - i) as int) =~= s@.subrange(d1 as int, b as int));
    if d1 < b && s[d1] == 46 {
        let d2 = skip_digits(s, d1 + 1, b);
        assert(s@.subrange(d1 as int, b as int).skip(1) =~= s@.subrange(d1 + 1, b as int));
        assert(s@.subrange(d1 as int, b as int).skip(1 + (d2 - d1 - 1)) =~= s@.subrange(
            d2 as int,
            b as int,
        ));
        (d1 - i) + (d2 - d1 - 1) > 0 && exponent_ok_range(s, d2, b)
    } else {
        d1 > i && exponent_ok_range(s, d1, b)
    }
}

/// `f64::from_str` applied to `s[a..b]`: success, or why it fails.
pub(crate) fn check_f64_range(s: &[u8], a: usize, b: usize) -> (r: Result<(), NumberError>)
    requires
        a <= b <= s.len(),
    ensures
        match parse_f64_spec(s@.subrange(a as int, b as int)) {
            Ok(_) => r == Ok::<(), NumberError>(()),
            Err(e) => r == Err::<(), NumberError>(e),
        },
{
    if a == b {
        Err(NumberError::FloatEmpty)
    } else if is_float_literal_range(s, a, b) {
        Ok(())
    } else {
        Err(NumberError::FloatInvalid)
    }
}


/// Whether `s` spells exactly the characters of `w`.
pub(crate) fn str_is(s: &str, w: &str) -> (r: bool)
    ensures
        r == (s@ == w@),
{
    let n = w.unicode_len();
    if s.unicode_len() != n {
        return false;
    }
    let mut i: usize = 0;
    while i < n
        invariant
            n == w@.len(),
            n == s@.len(),
            i <= n,
            forall|j: int| 0 <= j < i ==> s@[j] == w@[j],
        decreases n - i,
    {
        if s.get_char(i) != w.get_char(i) {
            return false;
        }
        i = i + 1;
    }
    assert(s@ =~= w@);
    true
}

/// `prefix`, then `s`, then `suffix`, as one string.
pub(crate) fn enclose(prefix: &str, s: &str, suffix: &str) -> (r: String)
    ensures
        r@ == prefix@ + s@ + suffix@,
{
    let mut m = String::from_str(prefix);
    m.append(s);
    m.append(suffix);
    m
}

} // verus!
