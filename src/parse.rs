//! Reading values back from text with a format description.
use vstd::prelude::*;
use crate::clock::{Time, clock_error, valid_hms_nano};
use crate::date::{Date, MAX_YEAR, MIN_YEAR, calendar_error, ordinal_error, valid_ymd};
use crate::util::year_days;
use crate::error::Parse;
use crate::datetime::{OffsetDateTime, PrimitiveDateTime};
use crate::format::FormatItem;
use crate::offset::{UtcOffset, offset_error, valid_offset_hms};
use crate::names::{month_from_name, month_of_name, weekday_from_name, weekday_of_name};

verus! {

/// An offset as read: hours, minutes and seconds, each with the offset's
/// sign.
#[derive(Debug, Clone, Copy, PartialEq, Eq, Structural)]
pub struct OffsetParts {
    pub hours: i8,
    pub minutes: i8,
    pub seconds: i8,
}

/// The components read from text so far; each is `None` until its item is
/// read, and a later item of the same kind replaces an earlier one.
#[derive(Debug, Clone, Copy, PartialEq, Eq, Structural)]
pub struct Parsed {
    pub year: Option<i32>,
    pub month: Option<u8>,
    pub day: Option<u8>,
    pub ordinal: Option<u16>,
    pub hour: Option<u8>,
    pub minute: Option<u8>,
    pub second: Option<u8>,
    pub nanosecond: Option<u32>,
    /// The offset's hours, minutes and seconds, each with the offset's sign.
    pub offset: Option<OffsetParts>,
    /// The day of the week, 0 for Monday; read, but not checked against
    /// the date.
    pub weekday: Option<u8>,
}

impl Parsed {
    /// Nothing read yet.
    pub open spec fn spec_empty() -> Parsed {
        Parsed {
            year: None,
            month: None,
            day: None,
            ordinal: None,
            hour: None,
            minute: None,
            second: None,
            nanosecond: None,
            offset: None,
            weekday: None,
        }
    }

    /// Nothing read yet.
    pub fn empty() -> (r: Parsed)
        ensures
            r == Parsed::spec_empty(),
    {
        Parsed {
            year: None,
            month: None,
            day: None,
            ordinal: None,
            hour: None,
            minute: None,
            second: None,
            nanosecond: None,
            offset: None,
            weekday: None,
        }
    }
}

/// Whether `b` is an ASCII digit.
pub open spec fn is_digit(b: u8) -> bool {
    48 <= b <= 57
}

/// The number that the digits `s` write, most significant first.
pub open spec fn value_of(s: Seq<u8>) -> int
    decreases s.len(),
{
    if s.len() == 0 {
        0
    } else {
        value_of(s.drop_last()) * 10 + (s.last() - 48)
    }
}

/// Reads `w` digits at `pos`: their value and the position after them.
pub open spec fn number_at(text: Seq<u8>, pos: int, w: int, name: &'static str) -> Result<(int, int), Parse> {
    if pos + w > text.len() {
        Err(Parse::UnexpectedEndOfString)
    } else if !(forall|k: int| pos <= k < pos + w ==> is_digit(#[trigger] text[k])) {
        Err(Parse::InvalidNumber { component_name: name })
    } else {
        Ok((value_of(text.subrange(pos, pos + w)), pos + w))
    }
}

/// Reads the byte `b` at `pos`: the position after it.
pub open spec fn literal_at(text: Seq<u8>, pos: int, b: u8) -> Result<int, Parse> {
    if pos >= text.len() {
        Err(Parse::UnexpectedEndOfString)
    } else if text[pos] != b {
        Err(Parse::UnexpectedCharacter { expected: b, given: text[pos] })
    } else {
        Ok(pos + 1)
    }
}

/// The number of digits in a row from `pos` on, `max` at most.
pub open spec fn digit_run(text: Seq<u8>, pos: int, max: nat) -> nat
    decreases max,
{
    if max == 0 || pos < 0 || pos >= text.len() || !is_digit(text[pos]) {
        0
    } else {
        1 + digit_run(text, pos + 1, (max - 1) as nat)
    }
}

/// Reads a fraction of a second at `pos`: one to nine digits, as many as
/// stand there, scaled to nanoseconds; and the position after them.
pub open spec fn fraction_at(text: Seq<u8>, pos: int) -> Result<(int, int), Parse> {
    let n = digit_run(text, pos, 9);
    if pos >= text.len() {
        Err(Parse::UnexpectedEndOfString)
    } else if n == 0 {
        Err(Parse::InvalidNumber { component_name: "nanosecond" })
    } else {
        Ok((value_of(text.subrange(pos, pos + n)) * ten_to((9 - n) as nat), pos + n))
    }
}

/// `v`, negated when `neg`.
pub open spec fn signed(neg: bool, v: int) -> int {
    if neg { -v } else { v }
}

/// Reads an offset at `pos`, `+HH:MM` or `+HH:MM:SS` (`-` west of UTC): its
/// hours, minutes and seconds with its sign, and the position after it.
pub open spec fn offset_at(text: Seq<u8>, pos: int) -> Result<((int, int, int), int), Parse> {
    if pos >= text.len() {
        Err(Parse::UnexpectedEndOfString)
    } else if text[pos] != 43u8 && text[pos] != 45u8 {
        Err(Parse::UnexpectedCharacter { expected: 43u8, given: text[pos] })
    } else {
        let neg = text[pos] == 45u8;
        match number_at(text, pos + 1, 2, "offset hour") {
            Err(e) => Err(e),
            Ok((h, after_hour)) => match literal_at(text, after_hour, 58u8) {
                Err(e) => Err(e),
                Ok(after_colon) => match number_at(text, after_colon, 2, "offset minute") {
                    Err(e) => Err(e),
                    Ok((m, after_minute)) => if after_minute < text.len() && text[after_minute] == 58u8 {
                        match number_at(text, after_minute + 1, 2, "offset second") {
                            Err(e) => Err(e),
                            Ok((sec, after_second)) => Ok(((signed(neg, h), signed(neg, m), signed(neg, sec)), after_second)),
                        }
                    } else {
                        Ok(((signed(neg, h), signed(neg, m), 0), after_minute))
                    },
                },
            },
        }
    }
}

/// Reads a three-letter month name at `pos`: the month and the position
/// after it.
pub open spec fn month_name_at(text: Seq<u8>, pos: int) -> Result<(int, int), Parse> {
    if pos + 3 > text.len() {
        Err(Parse::UnexpectedEndOfString)
    } else if month_of_name(text.subrange(pos, pos + 3)) == 0 {
        Err(Parse::UnknownName { component_name: "month" })
    } else {
        Ok((month_of_name(text.subrange(pos, pos + 3)), pos + 3))
    }
}

/// Reads a three-letter weekday name at `pos`: its index and the position
/// after it.
pub open spec fn weekday_name_at(text: Seq<u8>, pos: int) -> Result<(int, int), Parse> {
    if pos + 3 > text.len() {
        Err(Parse::UnexpectedEndOfString)
    } else if weekday_of_name(text.subrange(pos, pos + 3)) == 7 {
        Err(Parse::UnknownName { component_name: "weekday" })
    } else {
        Ok((weekday_of_name(text.subrange(pos, pos + 3)), pos + 3))
    }
}

/// Reads a year at `pos`: four digits, after a `-` when negative.
pub open spec fn year_at(text: Seq<u8>, pos: int) -> Result<(int, int), Parse> {
    if pos < text.len() && text[pos] == 45u8 {
        match number_at(text, pos + 1, 4, "year") {
            Ok((v, next)) => Ok((-v, next)),
            Err(e) => Err(e),
        }
    } else {
        number_at(text, pos, 4, "year")
    }
}

/// Reads one item at `pos`: the position after it and the components so far.
pub open spec fn parse_step(text: Seq<u8>, pos: int, item: FormatItem, p: Parsed) -> Result<(int, Parsed), Parse> {
    match item {
        FormatItem::Literal(b) => match literal_at(text, pos, b) {
            Ok(next) => Ok((next, p)),
            Err(e) => Err(e),
        },
        FormatItem::Year => match year_at(text, pos) {
            Ok((v, next)) => Ok((next, Parsed { year: Some(v as i32), ..p })),
            Err(e) => Err(e),
        },
        FormatItem::Month => match number_at(text, pos, 2, "month") {
            Ok((v, next)) => Ok((next, Parsed { month: Some(v as u8), ..p })),
            Err(e) => Err(e),
        },
        FormatItem::MonthName => match month_name_at(text, pos) {
            Ok((v, next)) => Ok((next, Parsed { month: Some(v as u8), ..p })),
            Err(e) => Err(e),
        },
        FormatItem::WeekdayName => match weekday_name_at(text, pos) {
            Ok((v, next)) => Ok((next, Parsed { weekday: Some(v as u8), ..p })),
            Err(e) => Err(e),
        },
        FormatItem::Day => match number_at(text, pos, 2, "day") {
            Ok((v, next)) => Ok((next, Parsed { day: Some(v as u8), ..p })),
            Err(e) => Err(e),
        },
        FormatItem::Ordinal => match number_at(text, pos, 3, "ordinal") {
            Ok((v, next)) => Ok((next, Parsed { ordinal: Some(v as u16), ..p })),
            Err(e) => Err(e),
        },
        FormatItem::Hour => match number_at(text, pos, 2, "hour") {
            Ok((v, next)) => Ok((next, Parsed { hour: Some(v as u8), ..p })),
            Err(e) => Err(e),
        },
        FormatItem::Minute => match number_at(text, pos, 2, "minute") {
            Ok((v, next)) => Ok((next, Parsed { minute: Some(v as u8), ..p })),
            Err(e) => Err(e),
        },
        FormatItem::Second => match number_at(text, pos, 2, "second") {
            Ok((v, next)) => Ok((next, Parsed { second: Some(v as u8), ..p })),
            Err(e) => Err(e),
        },
        FormatItem::Subsecond => match fraction_at(text, pos) {
            Ok((v, next)) => Ok((next, Parsed { nanosecond: Some(v as u32), ..p })),
            Err(e) => Err(e),
        },
        FormatItem::Offset => match offset_at(text, pos) {
            Ok(((h, m, sec), next)) => Ok((
                next,
                Parsed { offset: Some(OffsetParts { hours: h as i8, minutes: m as i8, seconds: sec as i8 }), ..p },
            )),
            Err(e) => Err(e),
        },
    }
}

/// Reads items `i..` from `pos` on, one after another; the first failure
/// ends the reading.
pub open spec fn parse_from(text: Seq<u8>, items: Seq<FormatItem>, i: int, pos: int, p: Parsed) -> Result<(int, Parsed), Parse>
    decreases items.len() - i,
{
    if i >= items.len() || i < 0 {
        Ok((pos, p))
    } else {
        match parse_step(text, pos, items[i], p) {
            Ok((next, q)) => parse_from(text, items, i + 1, next, q),
            Err(e) => Err(e),
        }
    }
}

/// The components that `items` read from the whole of `text`.
pub open spec fn parse_spec(text: Seq<u8>, items: Seq<FormatItem>) -> Result<Parsed, Parse> {
    match parse_from(text, items, 0, 0, Parsed::spec_empty()) {
        Ok((pos, p)) => if pos == text.len() {
            Ok(p)
        } else {
            Err(Parse::TrailingInput)
        },
        Err(e) => Err(e),
    }
}

/// Ten to the power `k`.
pub open spec fn ten_to(k: nat) -> nat
    decreases k,
{
    if k == 0 { 1 } else { 10 * ten_to((k - 1) as nat) }
}

/// The powers of ten that numbers in a format need.
pub proof fn lemma_ten_to()
    ensures
        ten_to(0) == 1,
        ten_to(1) == 10,
        ten_to(2) == 100,
        ten_to(3) == 1000,
        ten_to(4) == 10000,
        ten_to(5) == 100000,
        ten_to(6) == 1000000,
        ten_to(7) == 10000000,
        ten_to(8) == 100000000,
        ten_to(9) == 1000000000,
{
    reveal_with_fuel(ten_to, 10);
}

/// Powers of ten grow with the exponent.
pub proof fn lemma_ten_to_mono(a: nat, b: nat)
    requires
        a <= b,
    ensures
        1 <= ten_to(a) <= ten_to(b),
    decreases b,
{
    if b > 0 {
        if a < b {
            lemma_ten_to_mono(a, (b - 1) as nat);
        } else {
            lemma_ten_to_mono(0, (b - 1) as nat);
        }
    }
}

/// Exponents add when powers of ten multiply.
pub proof fn lemma_ten_to_add(a: nat, b: nat)
    ensures
        ten_to(a + b) == ten_to(a) * ten_to(b),
    decreases a,
{
    if a > 0 {
        let c = (a - 1) as nat;
        lemma_ten_to_add(c, b);
        assert(ten_to(a + b) == 10 * ten_to(c + b));
        assert(ten_to(a) == 10 * ten_to(c));
        assert(10 * (ten_to(c) * ten_to(b)) == (10 * ten_to(c)) * ten_to(b)) by (nonlinear_arith);
    } else {
        assert(ten_to(0) == 1);
        assert(a + b == b);
    }
}

/// Reads `w` digits at `pos`.
fn read_number(text: &[u8], pos: usize, w: usize, name: &'static str) -> (r: Result<(u32, usize), Parse>)
    requires
        1 <= w <= 4,
    ensures
        r matches Ok((v, next)) ==> number_at(text@, pos as int, w as int, name) == Ok::<(int, int), Parse>((v as int, next as int))
            && v < ten_to(w as nat) && next == pos + w,
        r matches Err(e) ==> number_at(text@, pos as int, w as int, name) == Err::<(int, int), Parse>(e),
{
    if pos > text.len() || text.len() - pos < w {
        return Err(Parse::UnexpectedEndOfString);
    }
    let mut acc: u32 = 0;
    let mut bound: u32 = 1;
    let mut k: usize = 0;
    let len = text.len();
    assert(pos + w <= len);
    proof {
        lemma_ten_to();
    }
    while k < w
        invariant
            k <= w <= 4,
            pos + w <= text@.len(),
            len == text@.len(),
            bound == ten_to(k as nat),
            acc < bound,
            ten_to(4) == 10000,
            ten_to(3) == 1000,
            ten_to(2) == 100,
            ten_to(1) == 10,
            ten_to(0) == 1,
            acc == value_of(text@.subrange(pos as int, pos + k)),
            forall|j: int| pos <= j < pos + k ==> is_digit(#[trigger] text@[j]),
        decreases w - k,
    {
        assert(pos + k < len);
        let b = text[pos + k];
        if b < 48 || b > 57 {
            return Err(Parse::InvalidNumber { component_name: name });
        }
        proof {
            assert(text@.subrange(pos as int, pos + k + 1).drop_last() =~= text@.subrange(pos as int, pos + k));
            assert(ten_to((k + 1) as nat) == 10 * ten_to(k as nat));
        }
        acc = acc * 10 + (b - 48) as u32;
        bound = bound * 10;
        k = k + 1;
    }
    Ok((acc, pos + w))
}

/// Reads the byte `b` at `pos`.
fn read_literal(text: &[u8], pos: usize, b: u8) -> (r: Result<usize, Parse>)
    ensures
        r matches Ok(next) ==> literal_at(text@, pos as int, b) == Ok::<int, Parse>(next as int),
        r matches Err(e) ==> literal_at(text@, pos as int, b) == Err::<int, Parse>(e),
{
    if pos >= text.len() {
        Err(Parse::UnexpectedEndOfString)
    } else if text[pos] != b {
        Err(Parse::UnexpectedCharacter { expected: b, given: text[pos] })
    } else {
        Ok(pos + 1)
    }
}

/// Reads three bytes at `pos` as a month name or, when `weekday`, as a
/// weekday name.
fn read_name(text: &[u8], pos: usize, weekday: bool) -> (r: Result<(u8, usize), Parse>)
    ensures
        r matches Ok((v, next)) ==> (if weekday { weekday_name_at(text@, pos as int) } else {
            month_name_at(text@, pos as int)
        }) == Ok::<(int, int), Parse>((v as int, next as int)),
        r matches Err(e) ==> (if weekday { weekday_name_at(text@, pos as int) } else {
            month_name_at(text@, pos as int)
        }) == Err::<(int, int), Parse>(e),
{
    if pos > text.len() || text.len() - pos < 3 {
        return Err(Parse::UnexpectedEndOfString);
    }
    let (a, b, c) = (text[pos], text[pos + 1], text[pos + 2]);
    assert(text@.subrange(pos as int, pos + 3) =~= seq![a, b, c]);
    if weekday {
        let w = weekday_from_name(a, b, c);
        if w == 7 {
            return Err(Parse::UnknownName { component_name: "weekday" });
        }
        Ok((w, pos + 3))
    } else {
        let m = month_from_name(a, b, c);
        if m == 0 {
            return Err(Parse::UnknownName { component_name: "month" });
        }
        Ok((m, pos + 3))
    }
}

/// Reads a fraction of a second at `pos`.
fn read_fraction(text: &[u8], pos: usize) -> (r: Result<(u32, usize), Parse>)
    ensures
        r matches Ok((v, next)) ==> fraction_at(text@, pos as int) == Ok::<(int, int), Parse>((v as int, next as int)),
        r matches Err(e) ==> fraction_at(text@, pos as int) == Err::<(int, int), Parse>(e),
{
    let len = text.len();
    if pos >= len {
        return Err(Parse::UnexpectedEndOfString);
    }
    proof {
        lemma_ten_to();
    }
    let mut acc: u32 = 0;
    let mut k: usize = 0;
    let mut scale: u32 = 1_000_000_000;
    while k < 9 && pos + k < len && text[pos + k] >= 48 && text[pos + k] <= 57
        invariant
            k <= 9,
            pos + k <= len,
            len == text@.len(),
            acc == value_of(text@.subrange(pos as int, pos + k)),
            acc < ten_to(k as nat),
            scale == ten_to((9 - k) as nat),
            ten_to(9) == 1_000_000_000,
            digit_run(text@, pos as int, 9) == k + digit_run(text@, pos + k, (9 - k) as nat),
        decreases 9 - k,
    {
        proof {
            assert(text@.subrange(pos as int, pos + k + 1).drop_last() =~= text@.subrange(pos as int, pos + k));
            assert(ten_to((k + 1) as nat) == 10 * ten_to(k as nat));
            assert(ten_to((9 - k) as nat) == 10 * ten_to((9 - k - 1) as nat));
            lemma_ten_to_mono((k + 1) as nat, 9);
            assert(digit_run(text@, pos + k, (9 - k) as nat) == 1 + digit_run(text@, pos + k + 1, (9 - k - 1) as nat));
        }
        acc = acc * 10 + (text[pos + k] - 48) as u32;
        scale = scale / 10;
        k = k + 1;
    }
    assert(digit_run(text@, pos + k, (9 - k) as nat) == 0);
    if k == 0 {
        return Err(Parse::InvalidNumber { component_name: "nanosecond" });
    }
    proof {
        lemma_ten_to_add(k as nat, (9 - k) as nat);
        assert(acc * scale < ten_to(k as nat) * scale) by (nonlinear_arith)
            requires acc < ten_to(k as nat), scale > 0;
    }
    Ok((acc * scale, pos + k))
}

/// Reads an offset at `pos`.
fn read_offset(text: &[u8], pos: usize) -> (r: Result<((i8, i8, i8), usize), Parse>)
    ensures
        r matches Ok(((h, m, sec), next)) ==> offset_at(text@, pos as int) == Ok::<((int, int, int), int), Parse>(
            ((h as int, m as int, sec as int), next as int),
        ),
        r matches Err(e) ==> offset_at(text@, pos as int) == Err::<((int, int, int), int), Parse>(e),
{
    proof {
        lemma_ten_to();
    }
    if pos >= text.len() {
        return Err(Parse::UnexpectedEndOfString);
    }
    let b = text[pos];
    if b != 43 && b != 45 {
        return Err(Parse::UnexpectedCharacter { expected: 43, given: b });
    }
    let neg = b == 45;
    let (h, after_hour) = match read_number(text, pos + 1, 2, "offset hour") {
        Ok(v) => v,
        Err(e) => {
            return Err(e);
        },
    };
    let after_colon = match read_literal(text, after_hour, 58) {
        Ok(v) => v,
        Err(e) => {
            return Err(e);
        },
    };
    let (m, after_minute) = match read_number(text, after_colon, 2, "offset minute") {
        Ok(v) => v,
        Err(e) => {
            return Err(e);
        },
    };
    if after_minute < text.len() && text[after_minute] == 58 {
        let (sec, after_second) = match read_number(text, after_minute + 1, 2, "offset second") {
            Ok(v) => v,
            Err(e) => {
                return Err(e);
            },
        };
        if neg {
            Ok(((-(h as i8), -(m as i8), -(sec as i8)), after_second))
        } else {
            Ok(((h as i8, m as i8, sec as i8), after_second))
        }
    } else if neg {
        Ok(((-(h as i8), -(m as i8), 0), after_minute))
    } else {
        Ok(((h as i8, m as i8, 0), after_minute))
    }
}

/// Reads one item at `pos`.
fn read_item(text: &[u8], pos: usize, item: FormatItem, p: Parsed) -> (r: Result<(usize, Parsed), Parse>)
    ensures
        r matches Ok((next, q)) ==> parse_step(text@, pos as int, item, p) == Ok::<(int, Parsed), Parse>((next as int, q)),
        r matches Err(e) ==> parse_step(text@, pos as int, item, p) == Err::<(int, Parsed), Parse>(e),
{
    proof {
        lemma_ten_to();
    }
    match item {
        FormatItem::Literal(b) => {
            match read_literal(text, pos, b) {
                Ok(next) => Ok((next, p)),
                Err(e) => Err(e),
            }
        },
        FormatItem::Year => {
            if pos < text.len() && text[pos] == 45 {
                match read_number(text, pos + 1, 4, "year") {
                    Ok((v, next)) => Ok((next, Parsed { year: Some(-(v as i32)), ..p })),
                    Err(e) => Err(e),
                }
            } else {
                match read_number(text, pos, 4, "year") {
                    Ok((v, next)) => Ok((next, Parsed { year: Some(v as i32), ..p })),
                    Err(e) => Err(e),
                }
            }
        },
        FormatItem::Month => {
            match read_number(text, pos, 2, "month") {
                Ok((v, next)) => Ok((next, Parsed { month: Some(v as u8), ..p })),
                Err(e) => Err(e),
            }
        },
        FormatItem::MonthName => {
            match read_name(text, pos, false) {
                Ok((v, next)) => Ok((next, Parsed { month: Some(v), ..p })),
                Err(e) => Err(e),
            }
        },
        FormatItem::WeekdayName => {
            match read_name(text, pos, true) {
                Ok((v, next)) => Ok((next, Parsed { weekday: Some(v), ..p })),
                Err(e) => Err(e),
            }
        },
        FormatItem::Day => {
            match read_number(text, pos, 2, "day") {
                Ok((v, next)) => Ok((next, Parsed { day: Some(v as u8), ..p })),
                Err(e) => Err(e),
            }
        },
        FormatItem::Ordinal => {
            match read_number(text, pos, 3, "ordinal") {
                Ok((v, next)) => Ok((next, Parsed { ordinal: Some(v as u16), ..p })),
                Err(e) => Err(e),
            }
        },
        FormatItem::Hour => {
            match read_number(text, pos, 2, "hour") {
                Ok((v, next)) => Ok((next, Parsed { hour: Some(v as u8), ..p })),
                Err(e) => Err(e),
            }
        },
        FormatItem::Minute => {
            match read_number(text, pos, 2, "minute") {
                Ok((v, next)) => Ok((next, Parsed { minute: Some(v as u8), ..p })),
                Err(e) => Err(e),
            }
        },
        FormatItem::Second => {
            match read_number(text, pos, 2, "second") {
                Ok((v, next)) => Ok((next, Parsed { second: Some(v as u8), ..p })),
                Err(e) => Err(e),
            }
        },
        FormatItem::Subsecond => {
            match read_fraction(text, pos) {
                Ok((v, next)) => Ok((next, Parsed { nanosecond: Some(v), ..p })),
                Err(e) => Err(e),
            }
        },
        FormatItem::Offset => {
            match read_offset(text, pos) {
                Ok(((h, m, sec), next)) => Ok((
                    next,
                    Parsed { offset: Some(OffsetParts { hours: h, minutes: m, seconds: sec }), ..p },
                )),
                Err(e) => Err(e),
            }
        },
    }
}

/// Reads the components that `items` describe from the whole of `text`.
pub fn parse_items(text: &[u8], items: &[FormatItem]) -> (r: Result<Parsed, Parse>)
    ensures
        r matches Ok(p) ==> parse_spec(text@, items@) == Ok::<Parsed, Parse>(p),
        r matches Err(e) ==> parse_spec(text@, items@) == Err::<Parsed, Parse>(e),
{
    let mut p = Parsed::empty();
    let mut pos: usize = 0;
    let mut i: usize = 0;
    while i < items.len()
        invariant
            i <= items@.len(),
            parse_from(text@, items@, 0, 0, Parsed::spec_empty()) == parse_from(text@, items@, i as int, pos as int, p),
        decreases items@.len() - i,
    {
        match read_item(text, pos, items[i], p) {
            Ok((next, q)) => {
                pos = next;
                p = q;
            },
            Err(e) => {
                return Err(e);
            },
        }
        i = i + 1;
    }
    if pos != text.len() {
        return Err(Parse::TrailingInput);
    }
    Ok(p)
}

/// Whether `r` is the date that the components `p` make: from year, month
/// and day when all three were read, else from year and day of the year; a
/// component out of range gives the error a constructor gives.
pub open spec fn date_from_parsed(p: Parsed, r: Result<Date, Parse>) -> bool {
    if p.year is Some && p.month is Some && p.day is Some {
        let (y, m, d) = (p.year.unwrap() as int, p.month.unwrap() as int, p.day.unwrap() as int);
        match r {
            Ok(v) => valid_ymd(y, m, d) && v.spec_year() == y && v.spec_month() == m && v.spec_day() == d,
            Err(Parse::ComponentOutOfRange(e)) => !valid_ymd(y, m, d) && calendar_error(y, m, d, *e),
            Err(_) => false,
        }
    } else if p.year is Some && p.ordinal is Some {
        let (y, o) = (p.year.unwrap() as int, p.ordinal.unwrap() as int);
        match r {
            Ok(v) => MIN_YEAR <= y <= MAX_YEAR && 1 <= o <= year_days(y) && v.spec_year() == y
                && v.spec_ordinal() == o && valid_ymd(v.spec_year(), v.spec_month(), v.spec_day()),
            Err(Parse::ComponentOutOfRange(e)) => !(MIN_YEAR <= y <= MAX_YEAR && 1 <= o <= year_days(y))
                && ordinal_error(y, o, *e),
            Err(_) => false,
        }
    } else {
        r == Err::<Date, Parse>(Parse::InsufficientInformation)
    }
}

/// Whether `r` is the time that the components `p` make: an hour and a
/// minute are needed; the second and the nanoseconds are 0 when they were
/// not read.
pub open spec fn time_from_parsed(p: Parsed, r: Result<Time, Parse>) -> bool {
    if p.hour is Some && p.minute is Some {
        let (h, m) = (p.hour.unwrap() as int, p.minute.unwrap() as int);
        let s = if p.second is Some { p.second.unwrap() as int } else { 0 };
        let n = if p.nanosecond is Some { p.nanosecond.unwrap() as int } else { 0 };
        match r {
            Ok(t) => valid_hms_nano(h, m, s, n) && t.spec_hour() == h && t.spec_minute() == m
                && t.spec_second() == s && t.spec_nanosecond() == n,
            Err(Parse::ComponentOutOfRange(e)) => !valid_hms_nano(h, m, s, n) && clock_error(h, m, s, n, *e),
            Err(_) => false,
        }
    } else {
        r == Err::<Time, Parse>(Parse::InsufficientInformation)
    }
}

/// Builds a date from the components read.
pub fn date_from(p: Parsed) -> (r: Result<Date, Parse>)
    ensures
        date_from_parsed(p, r),
{
    match (p.year, p.month, p.day, p.ordinal) {
        (Some(y), Some(m), Some(d), _) => match Date::from_calendar_date(y, m, d) {
            Ok(v) => Ok(v),
            Err(e) => Err(Parse::ComponentOutOfRange(Box::new(e))),
        },
        (Some(y), _, _, Some(o)) => match Date::from_ordinal_date(y, o) {
            Ok(v) => Ok(v),
            Err(e) => Err(Parse::ComponentOutOfRange(Box::new(e))),
        },
        _ => Err(Parse::InsufficientInformation),
    }
}

/// Builds a time from the components read.
pub fn time_from(p: Parsed) -> (r: Result<Time, Parse>)
    ensures
        time_from_parsed(p, r),
{
    match (p.hour, p.minute) {
        (Some(h), Some(m)) => {
            let s = match p.second {
                Some(s) => s,
                None => 0,
            };
            let n = match p.nanosecond {
                Some(n) => n,
                None => 0,
            };
            match Time::from_hms_nano(h, m, s, n) {
                Ok(t) => Ok(t),
                Err(e) => Err(Parse::ComponentOutOfRange(Box::new(e))),
            }
        },
        _ => Err(Parse::InsufficientInformation),
    }
}

impl Date {
    /// Reads a date from the whole of `text` with `items`.
    pub fn parse(text: &[u8], items: &[FormatItem]) -> (r: Result<Date, Parse>)
        ensures
            match parse_spec(text@, items@) {
                Ok(p) => date_from_parsed(p, r),
                Err(e) => r == Err::<Date, Parse>(e),
            },
    {
        match parse_items(text, items) {
            Ok(p) => date_from(p),
            Err(e) => Err(e),
        }
    }
}

impl Time {
    /// Reads a time of day from the whole of `text` with `items`.
    pub fn parse(text: &[u8], items: &[FormatItem]) -> (r: Result<Time, Parse>)
        ensures
            match parse_spec(text@, items@) {
                Ok(p) => time_from_parsed(p, r),
                Err(e) => r == Err::<Time, Parse>(e),
            },
    {
        match parse_items(text, items) {
            Ok(p) => time_from(p),
            Err(e) => Err(e),
        }
    }
}

/// Whether `r` is the offset that the components `p` make: the offset must
/// have been read, and is checked as `UtcOffset::from_hms` checks it.
pub open spec fn offset_from_parsed(p: Parsed, r: Result<UtcOffset, Parse>) -> bool {
    match p.offset {
        Some(o) => match r {
            Ok(v) => valid_offset_hms(o.hours as int, o.minutes as int, o.seconds as int)
                && v.spec_seconds() == o.hours * 3600 + o.minutes * 60 + o.seconds,
            Err(Parse::ComponentOutOfRange(e)) => !valid_offset_hms(o.hours as int, o.minutes as int, o.seconds as int)
                && offset_error(o.hours as int, o.minutes as int, o.seconds as int, *e),
            Err(_) => false,
        },
        None => r == Err::<UtcOffset, Parse>(Parse::InsufficientInformation),
    }
}

/// Builds an offset from the components read.
pub fn offset_from(p: Parsed) -> (r: Result<UtcOffset, Parse>)
    ensures
        offset_from_parsed(p, r),
{
    match p.offset {
        Some(o) => match UtcOffset::from_hms(o.hours, o.minutes, o.seconds) {
            Ok(o) => Ok(o),
            Err(e) => Err(Parse::ComponentOutOfRange(Box::new(e))),
        },
        None => Err(Parse::InsufficientInformation),
    }
}

impl UtcOffset {
    /// Reads an offset from the whole of `text` with `items`.
    pub fn parse(text: &[u8], items: &[FormatItem]) -> (r: Result<UtcOffset, Parse>)
        ensures
            match parse_spec(text@, items@) {
                Ok(p) => offset_from_parsed(p, r),
                Err(e) => r == Err::<UtcOffset, Parse>(e),
            },
    {
        match parse_items(text, items) {
            Ok(p) => offset_from(p),
            Err(e) => Err(e),
        }
    }
}

impl OffsetDateTime {
    /// Reads a date, a time of day and an offset from the whole of `text`
    /// with `items`; the first of the three that cannot be built is the
    /// error.
    pub fn parse(text: &[u8], items: &[FormatItem]) -> (r: Result<OffsetDateTime, Parse>)
        ensures
            match parse_spec(text@, items@) {
                Ok(p) => match r {
                    Ok(v) => date_from_parsed(p, Ok(v.datetime.date)) && time_from_parsed(p, Ok(v.datetime.time))
                        && offset_from_parsed(p, Ok(v.offset)),
                    Err(e) => date_from_parsed(p, Err(e)) || (exists|d: Date| date_from_parsed(p, Ok(d)))
                        && (time_from_parsed(p, Err(e)) || (exists|t: Time| time_from_parsed(p, Ok(t)))
                        && offset_from_parsed(p, Err(e))),
                },
                Err(e) => r == Err::<OffsetDateTime, Parse>(e),
            },
    {
        let p = match parse_items(text, items) {
            Ok(p) => p,
            Err(e) => {
                return Err(e);
            },
        };
        let date = match date_from(p) {
            Ok(d) => d,
            Err(e) => {
                return Err(e);
            },
        };
        let time = match time_from(p) {
            Ok(t) => t,
            Err(e) => {
                return Err(e);
            },
        };
        let offset = match offset_from(p) {
            Ok(o) => o,
            Err(e) => {
                return Err(e);
            },
        };
        Ok(PrimitiveDateTime::new(date, time).assume_offset(offset))
    }
}

} // verus!
