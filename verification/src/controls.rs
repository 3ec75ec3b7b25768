//! The rules that turn what a user types into a setting: decimal parsing,
//! and the caps and clamps that each setting applies.
use vstd::prelude::*;
use vstd::string::StrSliceExecFns;

verus! {

/// The most points of a test render.
pub const MAX_RENDER_POINTS: usize = 25_000;

/// The most points of a final render.
pub const MAX_FINAL_POINTS: usize = 500_000;

/// The largest magnitude of a translation input (hundredths).
pub const TRANSLATION_LIMIT: isize = 100;

/// The largest magnitude of a dilation or shear input (hundredths).
pub const TWO_VAR_LIMIT: isize = 400;

/// `c` is one of the ASCII digits `0` to `9`.
pub open spec fn is_ascii_digit(c: char) -> bool {
    '0' <= c && c <= '9'
}

/// At least one character, all of them ASCII digits.
pub open spec fn all_digits(s: Seq<char>) -> bool {
    &&& s.len() > 0
    &&& forall|i: int| 0 <= i < s.len() ==> is_ascii_digit(#[trigger] s[i])
}

/// The number that a string of decimal digits writes.
pub open spec fn digits_value(s: Seq<char>) -> int
    decreases s.len(),
{
    if s.len() == 0 {
        0
    } else {
        10 * digits_value(s.drop_last()) + (s.last() as int - '0' as int)
    }
}

/// The integer that `s` writes in decimal, with an optional leading `+` or
/// `-` followed by at least one digit and nothing else; `None` when `s` is
/// not of that form. No range is checked here.
pub open spec fn decimal_value(s: Seq<char>) -> Option<int> {
    if s.len() > 0 && (s[0] == '-' || s[0] == '+') {
        if all_digits(s.drop_first()) {
            if s[0] == '-' {
                Some(-digits_value(s.drop_first()))
            } else {
                Some(digits_value(s.drop_first()))
            }
        } else {
            None
        }
    } else if all_digits(s) {
        Some(digits_value(s))
    } else {
        None
    }
}

/// What std's parsing of a signed integer in `[lo, hi]` gives for `s`.
pub open spec fn parsed_signed(s: Seq<char>, lo: int, hi: int) -> Option<int> {
    match decimal_value(s) {
        Some(v) => if lo <= v <= hi {
            Some(v)
        } else {
            None
        },
        None => None,
    }
}

/// What std's parsing of an unsigned integer up to `hi` gives for `s`: a
/// leading `-` is refused.
pub open spec fn parsed_unsigned(s: Seq<char>, hi: int) -> Option<int> {
    if s.len() > 0 && s[0] == '-' {
        None
    } else {
        parsed_signed(s, 0, hi)
    }
}

/// std's `str::parse::<isize>`: an optional `+` or `-`, then decimal digits,
/// the value within `isize`'s range; anything else (an empty string, a lone
/// sign, another character, overflow) is refused.
#[verifier::external_body]
fn parse_isize(s: &str) -> (r: Option<isize>)
    ensures
        r matches Some(v) ==> parsed_signed(s@, isize::MIN as int, isize::MAX as int) == Some(
            v as int,
        ),
        r is None ==> parsed_signed(s@, isize::MIN as int, isize::MAX as int) is None,
{
    s.parse::<isize>().ok()
}

/// std's `str::parse::<usize>`: an optional `+`, then decimal digits, the
/// value at most `usize::MAX`; anything else is refused.
#[verifier::external_body]
fn parse_usize(s: &str) -> (r: Option<usize>)
    ensures
        r matches Some(v) ==> parsed_unsigned(s@, usize::MAX as int) == Some(v as int),
        r is None ==> parsed_unsigned(s@, usize::MAX as int) is None,
{
    s.parse::<usize>().ok()
}

/// std's `str::parse::<u32>`: an optional `+`, then decimal digits, the
/// value at most `u32::MAX`; anything else is refused.
#[verifier::external_body]
fn parse_u32(s: &str) -> (r: Option<u32>)
    ensures
        r matches Some(v) ==> parsed_unsigned(s@, u32::MAX as int) == Some(v as int),
        r is None ==> parsed_unsigned(s@, u32::MAX as int) is None,
{
    s.parse::<u32>().ok()
}

/// The colour channel for a typed number: 255 above 256, else the number
/// taken modulo 256 (so 256 gives 0).
pub fn clamp_color(val: usize) -> (c: u8)
    ensures
        c == if val > 256 {
            255
        } else {
            val % 256
        },
{
    if val > 256 {
        255
    } else {
        (val % 256) as u8
    }
}

/// A colour channel from typed text, or `None` when the text is not an
/// unsigned decimal number.
pub fn color_input(val: &str) -> (r: Option<u8>)
    ensures
        r matches Some(c) ==> exists|v: int|
            parsed_unsigned(val@, usize::MAX as int) == Some(v) && c == if v > 256 {
                255
            } else {
                v % 256
            },
        r is None <==> parsed_unsigned(val@, usize::MAX as int) is None,
{
    match parse_usize(val) {
        Some(n) => Some(clamp_color(n)),
        None => None,
    }
}

/// A count from typed text, capped at `max`, or `None` when the text is not
/// an unsigned decimal number.
fn capped_input(val: &str, max: usize) -> (r: Option<usize>)
    ensures
        r matches Some(c) ==> exists|v: int|
            parsed_unsigned(val@, usize::MAX as int) == Some(v) && c == if v > max {
                max as int
            } else {
                v
            },
        r is None <==> parsed_unsigned(val@, usize::MAX as int) is None,
{
    match parse_usize(val) {
        Some(n) => Some(
            if n > max {
                max
            } else {
                n
            },
        ),
        None => None,
    }
}

/// The number of points of a test render from typed text, capped at
/// `MAX_RENDER_POINTS`.
pub fn render_points_input(val: &str) -> (r: Option<usize>)
    ensures
        r matches Some(c) ==> exists|v: int|
            parsed_unsigned(val@, usize::MAX as int) == Some(v) && c == if v > MAX_RENDER_POINTS {
                MAX_RENDER_POINTS as int
            } else {
                v
            },
        r is None <==> parsed_unsigned(val@, usize::MAX as int) is None,
{
    capped_input(val, MAX_RENDER_POINTS)
}

/// The number of points of a final render from typed text, capped at
/// `MAX_FINAL_POINTS`.
pub fn final_points_input(val: &str) -> (r: Option<usize>)
    ensures
        r matches Some(c) ==> exists|v: int|
            parsed_unsigned(val@, usize::MAX as int) == Some(v) && c == if v > MAX_FINAL_POINTS {
                MAX_FINAL_POINTS as int
            } else {
                v
            },
        r is None <==> parsed_unsigned(val@, usize::MAX as int) is None,
{
    capped_input(val, MAX_FINAL_POINTS)
}

/// The dot size in tenths of a pixel from typed text, or `None` when the
/// text is not an unsigned decimal number that fits in `u32`.
pub fn dot_size_input(val: &str) -> (r: Option<u32>)
    ensures
        r matches Some(v) ==> parsed_unsigned(val@, u32::MAX as int) == Some(v as int),
        r is None <==> parsed_unsigned(val@, u32::MAX as int) is None,
{
    parse_u32(val)
}

/// The text is empty or a lone minus sign: a value being typed.
pub open spec fn is_partial_number(s: Seq<char>) -> bool {
    s.len() == 0 || s == seq!['-']
}

/// Text that reads as a number is never a partial number: the empty text
/// and a lone `-` are the only partial ones, and neither parses.
pub proof fn lemma_number_not_partial(s: Seq<char>, lo: int, hi: int)
    requires
        parsed_signed(s, lo, hi) is Some,
    ensures
        !is_partial_number(s),
        s.len() > 0,
        s.len() == 1 ==> is_ascii_digit(s[0]),
{
    if s.len() == 0 {
        assert(!all_digits(s));
    } else if s.len() == 1 && (s[0] == '-' || s[0] == '+') {
        assert(s.drop_first().len() == 0);
    }
}

/// A partial number is the empty text or a lone `-`, nothing longer.
pub proof fn lemma_partial_is_short(s: Seq<char>)
    requires
        is_partial_number(s),
    ensures
        s.len() <= 1,
        s.len() == 1 ==> s[0] == '-',
{
}

/// A signed value from typed text: its number when it is one, zero while
/// it is empty or a lone `-`, `None` otherwise.
pub fn step_input(val: &str) -> (r: Option<isize>)
    ensures
        r matches Some(v) ==> if is_partial_number(val@) {
            v == 0
        } else {
            parsed_signed(val@, isize::MIN as int, isize::MAX as int) == Some(v as int)
        },
        r is None <==> !is_partial_number(val@) && parsed_signed(
            val@,
            isize::MIN as int,
            isize::MAX as int,
        ) is None,
        parsed_signed(val@, isize::MIN as int, isize::MAX as int) matches Some(n) ==> r == Some(
            n as isize,
        ),
        val@.len() == 0 ==> r == Some(0isize),
        val@ == seq!['-'] ==> r == Some(0isize),
{
    match parse_isize(val) {
        Some(n) => {
            proof {
                if val@.len() == 0 {
                    assert(!all_digits(val@));
                } else if val@ == seq!['-'] {
                    assert(val@.drop_first().len() == 0);
                }
            }
            Some(n)
        },
        None => {
            if val.is_empty() {
                Some(0)
            } else if val.unicode_len() == 1 && val.get_char(0) == '-' {
                assert(val@ =~= seq!['-']);
                Some(0)
            } else {
                None
            }
        },
    }
}

/// `v` with its magnitude capped at `limit`, keeping its sign.
pub fn clamp_magnitude(v: isize, limit: isize) -> (c: isize)
    requires
        0 <= limit,
        v != isize::MIN,
    ensures
        c == if v > limit {
            limit as int
        } else if v < -limit {
            -limit
        } else {
            v as int
        },
{
    let magnitude = if v < 0 {
        -v
    } else {
        v
    };
    if magnitude > limit {
        if v > 0 {
            limit
        } else {
            -limit
        }
    } else {
        v
    }
}

/// A translation input in hundredths: `step_input`, its magnitude capped at
/// `TRANSLATION_LIMIT`. The typed number must not be `isize::MIN`, whose
/// magnitude does not fit.
pub fn translation_input(val: &str) -> (r: Option<isize>)
    requires
        parsed_signed(val@, isize::MIN as int, isize::MAX as int) != Some(isize::MIN as int),
    ensures
        r matches Some(c) ==> exists|v: int|
            (if is_partial_number(val@) {
                v == 0
            } else {
                parsed_signed(val@, isize::MIN as int, isize::MAX as int) == Some(v)
            }) && c == if v > TRANSLATION_LIMIT {
                TRANSLATION_LIMIT as int
            } else if v < -TRANSLATION_LIMIT {
                -TRANSLATION_LIMIT
            } else {
                v
            },
        r is None <==> !is_partial_number(val@) && parsed_signed(
            val@,
            isize::MIN as int,
            isize::MAX as int,
        ) is None,
        parsed_signed(val@, isize::MIN as int, isize::MAX as int) matches Some(n) ==> r == Some(
            (if n > TRANSLATION_LIMIT {
                TRANSLATION_LIMIT as int
            } else if n < -TRANSLATION_LIMIT {
                -TRANSLATION_LIMIT
            } else {
                n
            }) as isize,
        ),
{
    match step_input(val) {
        Some(v) => Some(clamp_magnitude(v, TRANSLATION_LIMIT)),
        None => None,
    }
}

/// A dilation or shear input in hundredths: `step_input`, its magnitude
/// capped at `TWO_VAR_LIMIT`. The typed number must not be `isize::MIN`,
/// whose magnitude does not fit.
pub fn two_var_input(val: &str) -> (r: Option<isize>)
    requires
        parsed_signed(val@, isize::MIN as int, isize::MAX as int) != Some(isize::MIN as int),
    ensures
        r matches Some(c) ==> exists|v: int|
            (if is_partial_number(val@) {
                v == 0
            } else {
                parsed_signed(val@, isize::MIN as int, isize::MAX as int) == Some(v)
            }) && c == if v > TWO_VAR_LIMIT {
                TWO_VAR_LIMIT as int
            } else if v < -TWO_VAR_LIMIT {
                -TWO_VAR_LIMIT
            } else {
                v
            },
        r is None <==> !is_partial_number(val@) && parsed_signed(
            val@,
            isize::MIN as int,
            isize::MAX as int,
        ) is None,
        parsed_signed(val@, isize::MIN as int, isize::MAX as int) matches Some(n) ==> r == Some(
            (if n > TWO_VAR_LIMIT {
                TWO_VAR_LIMIT as int
            } else if n < -TWO_VAR_LIMIT {
                -TWO_VAR_LIMIT
            } else {
                n
            }) as isize,
        ),
{
    match step_input(val) {
        Some(v) => Some(clamp_magnitude(v, TWO_VAR_LIMIT)),
        None => None,
    }
}

} // verus!
