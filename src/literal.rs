//! Literal dates and times as written in source text: validated in full
//! before any value is made.
use vstd::prelude::*;
use crate::clock::Time;
use crate::date::Date;
use crate::datetime::PrimitiveDateTime;
use crate::error::{ComponentRange, Parse};
use crate::format::FormatItem;
use crate::clock::valid_hms_nano;
use crate::date::valid_ymd;
use crate::duration::{Duration, fits};
use crate::format::{digits, render, year_text};
use crate::parse::{is_digit, lemma_ten_to};
use crate::round_trip::{all_date_items, all_time_items, lemma_date_round_trip, lemma_digits_facts, lemma_time_round_trip};
use crate::parse::{Parsed, digit_run, lemma_ten_to_mono, signed, ten_to, value_of, date_from_parsed, parse_items, parse_spec, time_from, time_from_parsed};

verus! {

/// The format of a date literal of `len` bytes: `YYYY-DDD` (or `-YYYY-DDD`)
/// for a day of the year, else `YYYY-MM-DD`.
pub open spec fn date_literal_items(text: Seq<u8>) -> Seq<FormatItem> {
    let year_len = if text.len() > 0 && text[0] == 45u8 { 5int } else { 4int };
    if text.len() == year_len + 4 {
        seq![FormatItem::Year, FormatItem::Literal(45), FormatItem::Ordinal]
    } else {
        seq![FormatItem::Year, FormatItem::Literal(45), FormatItem::Month, FormatItem::Literal(45), FormatItem::Day]
    }
}

/// The format of a time literal without its marker: `hh:mm` when five bytes
/// long, `hh:mm:ss` when eight, else `hh:mm:ss.f` with one to nine digits of
/// fraction.
pub open spec fn time_literal_items(core: Seq<u8>) -> Seq<FormatItem> {
    if core.len() == 5 {
        seq![FormatItem::Hour, FormatItem::Literal(58), FormatItem::Minute]
    } else if core.len() == 8 {
        seq![FormatItem::Hour, FormatItem::Literal(58), FormatItem::Minute, FormatItem::Literal(58), FormatItem::Second]
    } else {
        seq![
            FormatItem::Hour,
            FormatItem::Literal(58),
            FormatItem::Minute,
            FormatItem::Literal(58),
            FormatItem::Second,
            FormatItem::Literal(46),
            FormatItem::Subsecond,
        ]
    }
}

/// The marker at the end of a time literal: 1 for ` am`, 2 for ` pm`, 0 for
/// none.
pub open spec fn marker(text: Seq<u8>) -> int {
    if text.len() >= 3 && text[text.len() - 3] == 32u8 && text[text.len() - 1] == 109u8 {
        if text[text.len() - 2] == 97u8 {
            1
        } else if text[text.len() - 2] == 112u8 {
            2
        } else {
            0
        }
    } else {
        0
    }
}

/// A time literal without its marker.
pub open spec fn time_core(text: Seq<u8>) -> Seq<u8> {
    if marker(text) == 0 { text } else { text.subrange(0, text.len() - 3) }
}

/// The hour on a 24-hour clock of hour `h` (1 to 12) before or after noon.
pub open spec fn hour_of_day(h: int, pm: bool) -> int {
    if h == 12 {
        if pm { 12 } else { 0 }
    } else {
        if pm { h + 12 } else { h }
    }
}

/// `s` with a `0` put in before position `at`.
pub open spec fn with_zero_at(s: Seq<u8>, at: int) -> Seq<u8> {
    s.subrange(0, at) + seq![48u8] + s.subrange(at, s.len() as int)
}

/// The length of the year of a date literal: five bytes after a `-`, else
/// four.
pub open spec fn year_len(text: Seq<u8>) -> int {
    if text.len() > 0 && text[0] == 45u8 { 5 } else { 4 }
}

/// A date literal with a one-digit month and a one-digit day each given a
/// leading `0`.
pub open spec fn date_text(text: Seq<u8>) -> Seq<u8> {
    let y = year_len(text);
    let month_done = if text.len() > y + 2 && text[y + 2] == 45u8 { with_zero_at(text, y + 1) } else { text };
    if month_done.len() == y + 5 && month_done[y + 3] == 45u8 {
        with_zero_at(month_done, y + 4)
    } else {
        month_done
    }
}

/// A time literal without its marker, with a one-digit hour given a
/// leading `0`.
pub open spec fn time_text(text: Seq<u8>) -> Seq<u8> {
    let core = time_core(text);
    if core.len() >= 2 && core[1] == 58u8 { with_zero_at(core, 0) } else { core }
}

/// Whether `r` is what reading `text` as a date literal gives: the month and
/// the day may each have one digit or two.
pub open spec fn date_literal_result(text: Seq<u8>, r: Result<Date, Parse>) -> bool {
    let text = date_text(text);
    match parse_spec(text, date_literal_items(text)) {
        Ok(p) => date_from_parsed(p, r),
        Err(e) => r == Err::<Date, Parse>(e),
    }
}

/// Whether `r` is what reading `text` as a time literal gives. With a
/// marker the hour must lie between 1 and 12, and is moved to the 24-hour
/// clock before the time is built. The hour may have one digit or two.
pub open spec fn time_literal_result(text: Seq<u8>, r: Result<Time, Parse>) -> bool {
    let core = time_text(text);
    match parse_spec(core, time_literal_items(core)) {
        Ok(p) => if marker(text) != 0 && p.hour is Some {
            let h = p.hour.unwrap() as int;
            if 1 <= h <= 12 {
                time_from_parsed(Parsed { hour: Some(hour_of_day(h, marker(text) == 2) as u8), ..p }, r)
            } else {
                r matches Err(Parse::ComponentOutOfRange(e)) && e.is("hour"@, 1, 12, h)
            }
        } else {
            time_from_parsed(p, r)
        },
        Err(e) => r == Err::<Time, Parse>(e),
    }
}

/// `v` with a `0` put in before position `at`.
fn with_zero(v: &[u8], at: usize) -> (r: Vec<u8>)
    requires
        at <= v@.len(),
    ensures
        r@ == with_zero_at(v@, at as int),
{
    let mut r: Vec<u8> = Vec::new();
    let mut i: usize = 0;
    while i < v.len()
        invariant
            at <= v@.len(),
            i <= v@.len(),
            i <= at ==> r@ == v@.subrange(0, i as int),
            i > at ==> r@ == v@.subrange(0, at as int) + seq![48u8] + v@.subrange(at as int, i as int),
        decreases v@.len() - i,
    {
        if i == at {
            r.push(48);
        }
        r.push(v[i]);
        proof {
            if i < at {
                assert(r@ =~= v@.subrange(0, i as int + 1));
            } else {
                assert(r@ =~= v@.subrange(0, at as int) + seq![48u8] + v@.subrange(at as int, i as int + 1));
            }
        }
        i = i + 1;
    }
    if at == v.len() {
        r.push(48);
    }
    assert(r@ =~= with_zero_at(v@, at as int));
    r
}

/// Reads a date literal, `YYYY-MM-DD` or `YYYY-DDD`, with a leading `-` for
/// a year before 0; the month and the day may each have one digit. The day
/// is checked against its month and year.
pub fn parse_date_literal(text: &[u8]) -> (r: Result<Date, Parse>)
    ensures
        date_literal_result(text@, r),
{
    let year_len: usize = if text.len() > 0 && text[0] == 45 { 5 } else { 4 };
    let month_done: Vec<u8> = if text.len() > year_len + 2 && text[year_len + 2] == 45 {
        with_zero(text, year_len + 1)
    } else {
        slice_to_vec(text)
    };
    let full: Vec<u8> = if month_done.len() == year_len + 5 && month_done[year_len + 3] == 45 {
        with_zero(month_done.as_slice(), year_len + 4)
    } else {
        month_done
    };
    assert(full@ =~= date_text(text@));
    let text = full.as_slice();
    let mut items: Vec<FormatItem> = Vec::new();
    items.push(FormatItem::Year);
    items.push(FormatItem::Literal(45));
    if text.len() == year_len + 4 {
        items.push(FormatItem::Ordinal);
    } else {
        items.push(FormatItem::Month);
        items.push(FormatItem::Literal(45));
        items.push(FormatItem::Day);
    }
    assert(items@ =~= date_literal_items(text@));
    Date::parse(text, items.as_slice())
}

/// The bytes of `v` in a vector of their own.
fn slice_to_vec(v: &[u8]) -> (r: Vec<u8>)
    ensures
        r@ == v@,
{
    let mut r: Vec<u8> = Vec::new();
    let mut i: usize = 0;
    while i < v.len()
        invariant
            i <= v@.len(),
            r@ == v@.subrange(0, i as int),
        decreases v@.len() - i,
    {
        r.push(v[i]);
        assert(r@ =~= v@.subrange(0, i as int + 1));
        i = i + 1;
    }
    assert(r@ =~= v@);
    r
}

/// Reads a time literal: `hh:mm`, `hh:mm:ss` or `hh:mm:ss.f`, where the hour
/// may have one digit, followed by ` am` or ` pm` for a 12-hour clock.
pub fn parse_time_literal(text: &[u8]) -> (r: Result<Time, Parse>)
    ensures
        time_literal_result(text@, r),
{
    let n = text.len();
    let mut mark: u8 = 0;
    if n >= 3 && text[n - 3] == 32 && text[n - 1] == 109 {
        if text[n - 2] == 97 {
            mark = 1;
        } else if text[n - 2] == 112 {
            mark = 2;
        }
    }
    let bare: &[u8] = if mark == 0 { text } else { text.split_at(n - 3).0 };
    assert(bare@ =~= time_core(text@));
    let padded: Vec<u8> = if bare.len() >= 2 && bare[1] == 58 { with_zero(bare, 0) } else { slice_to_vec(bare) };
    assert(padded@ =~= time_text(text@));
    let core: &[u8] = padded.as_slice();
    let mut items: Vec<FormatItem> = Vec::new();
    items.push(FormatItem::Hour);
    items.push(FormatItem::Literal(58));
    items.push(FormatItem::Minute);
    if core.len() != 5 {
        items.push(FormatItem::Literal(58));
        items.push(FormatItem::Second);
        if core.len() != 8 {
            items.push(FormatItem::Literal(46));
            items.push(FormatItem::Subsecond);
        }
    }
    assert(items@ =~= time_literal_items(core@));
    let p = match parse_items(core, items.as_slice()) {
        Ok(p) => p,
        Err(e) => {
            return Err(e);
        },
    };
    if mark != 0 {
        if let Some(h) = p.hour {
            if h < 1 || h > 12 {
                return Err(Parse::ComponentOutOfRange(Box::new(ComponentRange {
                    component_name: "hour",
                    minimum: 1,
                    maximum: 12,
                    value: h as i64,
                    given: Vec::new(),
                })));
            }
            let hour = if h == 12 {
                if mark == 2 { 12 } else { 0 }
            } else {
                if mark == 2 { h + 12 } else { h }
            };
            return time_from(Parsed { hour: Some(hour), ..p });
        }
    }
    time_from(p)
}

/// Reads a date literal and a time literal, in that order: the first failure
/// is the result, and no value is made from a part.
pub fn parse_datetime_literal(date_text: &[u8], time_text: &[u8]) -> (r: Result<PrimitiveDateTime, Parse>)
    ensures
        r matches Ok(dt) ==> date_literal_result(date_text@, Ok(dt.date)) && time_literal_result(time_text@, Ok(dt.time)),
        r matches Err(e) ==> date_literal_result(date_text@, Err(e)) || exists|d: Date| date_literal_result(date_text@, Ok(d))
            && time_literal_result(time_text@, Err(e)),
        (exists|d: Date, t: Time| date_literal_result(date_text@, Ok(d)) && time_literal_result(time_text@, Ok(t))) ==> r is Ok,
{
    let date = match parse_date_literal(date_text) {
        Ok(d) => d,
        Err(e) => {
            proof {
                lemma_date_literal_unique(date_text@);
            }
            return Err(e);
        },
    };
    let time = match parse_time_literal(time_text) {
        Ok(t) => t,
        Err(e) => {
            proof {
                lemma_time_literal_unique(time_text@);
            }
            return Err(e);
        },
    };
    Ok(PrimitiveDateTime::new(date, time))
}

/// The nanoseconds in one of `unit`: `ns`, `us`, `ms`, `s`, `m`, `h`, `d`
/// or `w`; 0 for anything else.
pub open spec fn unit_nanos(unit: Seq<u8>) -> int {
    if unit == seq![110u8, 115u8] {
        1
    } else if unit == seq![117u8, 115u8] {
        1_000
    } else if unit == seq![109u8, 115u8] {
        1_000_000
    } else if unit == seq![115u8] {
        1_000_000_000
    } else if unit == seq![109u8] {
        60_000_000_000
    } else if unit == seq![104u8] {
        3_600_000_000_000
    } else if unit == seq![100u8] {
        86_400_000_000_000
    } else if unit == seq![119u8] {
        604_800_000_000_000
    } else {
        0
    }
}

/// Whether `r` is what reading `text` as a duration literal gives: an
/// optional sign, one to nineteen digits, then a unit.
pub open spec fn duration_literal_result(text: Seq<u8>, r: Result<Duration, Parse>) -> bool {
    let start: int = if text.len() > 0 && (text[0] == 45u8 || text[0] == 43u8) { 1 } else { 0 };
    let n = digit_run(text, start, 19);
    let unit = text.subrange(start + n, text.len() as int);
    let total = signed(start == 1 && text[0] == 45u8, value_of(text.subrange(start, start + n)) * unit_nanos(unit));
    if start >= text.len() {
        r == Err::<Duration, Parse>(Parse::UnexpectedEndOfString)
    } else if n == 0 {
        r == Err::<Duration, Parse>(Parse::InvalidNumber { component_name: "duration" })
    } else if unit_nanos(unit) == 0 {
        r == Err::<Duration, Parse>(Parse::UnknownName { component_name: "unit" })
    } else if !fits(total) {
        r == Err::<Duration, Parse>(Parse::ValueTooLarge { component_name: "duration" })
    } else {
        r matches Ok(d) && d.total() == total
    }
}

/// The nanoseconds in one of the unit `unit`, or 0 when it names none.
fn unit_value(unit: &[u8]) -> (r: u64)
    ensures
        r == unit_nanos(unit@),
        r <= 604_800_000_000_000,
{
    let n = unit.len();
    if n == 2 && unit[1] == 115 {
        if unit[0] == 110 {
            assert(unit@ =~= seq![110u8, 115u8]);
            return 1;
        } else if unit[0] == 117 {
            assert(unit@ =~= seq![117u8, 115u8]);
            return 1_000;
        } else if unit[0] == 109 {
            assert(unit@ =~= seq![109u8, 115u8]);
            return 1_000_000;
        }
    }
    if n == 1 {
        let b = unit[0];
        if b == 115 {
            assert(unit@ =~= seq![115u8]);
            return 1_000_000_000;
        } else if b == 109 {
            assert(unit@ =~= seq![109u8]);
            return 60_000_000_000;
        } else if b == 104 {
            assert(unit@ =~= seq![104u8]);
            return 3_600_000_000_000;
        } else if b == 100 {
            assert(unit@ =~= seq![100u8]);
            return 86_400_000_000_000;
        } else if b == 119 {
            assert(unit@ =~= seq![119u8]);
            return 604_800_000_000_000;
        }
    }
    proof {
        if n == 1 {
            assert(unit@ != seq![110u8, 115u8] && unit@ != seq![117u8, 115u8] && unit@ != seq![109u8, 115u8]);
            assert(seq![115u8][0] == 115 && seq![109u8][0] == 109 && seq![104u8][0] == 104);
            assert(seq![100u8][0] == 100 && seq![119u8][0] == 119);
        } else if n == 2 {
            assert(seq![110u8, 115u8][1] == 115 && seq![117u8, 115u8][1] == 115 && seq![109u8, 115u8][1] == 115);
            assert(seq![110u8, 115u8][0] == 110 && seq![117u8, 115u8][0] == 117 && seq![109u8, 115u8][0] == 109);
        }
    }
    0
}

/// Reads a duration literal: an optional sign, one to nineteen digits, then
/// a unit among `ns`, `us`, `ms`, `s`, `m`, `h`, `d` and `w`.
pub fn parse_duration_literal(text: &[u8]) -> (r: Result<Duration, Parse>)
    ensures
        duration_literal_result(text@, r),
{
    let len = text.len();
    let start: usize = if len > 0 && (text[0] == 45 || text[0] == 43) { 1 } else { 0 };
    if start >= len {
        return Err(Parse::UnexpectedEndOfString);
    }
    let mut count: u64 = 0;
    let mut k: usize = 0;
    proof {
        lemma_ten_to_mono(19, 19);
        reveal_with_fuel(ten_to, 20);
    }
    while k < 19 && start + k < len && text[start + k] >= 48 && text[start + k] <= 57
        invariant
            k <= 19,
            start + k <= len,
            len == text@.len(),
            count == value_of(text@.subrange(start as int, start + k)),
            count < ten_to(k as nat),
            ten_to(19) == 10_000_000_000_000_000_000,
            digit_run(text@, start as int, 19) == k + digit_run(text@, start + k, (19 - k) as nat),
        decreases 19 - k,
    {
        proof {
            assert(text@.subrange(start as int, start + k + 1).drop_last() =~= text@.subrange(start as int, start + k));
            assert(ten_to((k + 1) as nat) == 10 * ten_to(k as nat));
            lemma_ten_to_mono((k + 1) as nat, 19);
            assert(digit_run(text@, start + k, (19 - k) as nat) == 1 + digit_run(text@, start + k + 1, (19 - k - 1) as nat));
        }
        count = count * 10 + (text[start + k] - 48) as u64;
        k = k + 1;
    }
    assert(digit_run(text@, start + k, (19 - k) as nat) == 0);
    if k == 0 {
        return Err(Parse::InvalidNumber { component_name: "duration" });
    }
    let unit = text.split_at(start + k).1;
    let per = unit_value(unit);
    if per == 0 {
        return Err(Parse::UnknownName { component_name: "unit" });
    }
    proof {
        assert(count * per <= 10_000_000_000_000_000_000 * 604_800_000_000_000) by (nonlinear_arith)
            requires
                count < 10_000_000_000_000_000_000,
                per <= 604_800_000_000_000;
    }
    let mag: i128 = count as i128 * per as i128;
    let total: i128 = if start == 1 && text[0] == 45 { -mag } else { mag };
    match Duration::from_total(total) {
        Some(d) => Ok(d),
        None => Err(Parse::ValueTooLarge { component_name: "duration" }),
    }
}

/// The canonical form of a date literal: `YYYY-MM-DD`.
pub open spec fn date_literal_format() -> Seq<FormatItem> {
    seq![FormatItem::Year, FormatItem::Literal(45), FormatItem::Month, FormatItem::Literal(45), FormatItem::Day]
}

/// The canonical form of a time literal: `hh:mm:ss`.
pub open spec fn time_literal_format() -> Seq<FormatItem> {
    seq![FormatItem::Hour, FormatItem::Literal(58), FormatItem::Minute, FormatItem::Literal(58), FormatItem::Second]
}

/// A date written as `YYYY-MM-DD` and a time on a whole second written as
/// `hh:mm:ss` read back as literals give that date and that time, and
/// nothing else.
pub proof fn lemma_literal_round_trip(d: Date, t: Time)
    requires
        valid_ymd(d.spec_year(), d.spec_month(), d.spec_day()),
        valid_hms_nano(t.spec_hour(), t.spec_minute(), t.spec_second(), t.spec_nanosecond()),
        t.spec_nanosecond() == 0,
    ensures
        date_literal_result(render(date_literal_format(), Some(d), None, None), Ok(d)),
        forall|r: Result<Date, Parse>|
            date_literal_result(render(date_literal_format(), Some(d), None, None), r) ==> r == Ok::<Date, Parse>(d),
        time_literal_result(render(time_literal_format(), None, Some(t), None), Ok(t)),
        forall|r: Result<Time, Parse>|
            time_literal_result(render(time_literal_format(), None, Some(t), None), r) ==> r == Ok::<Time, Parse>(t),
{
    lemma_ten_to();
    let di = date_literal_format();
    assert(di.drop_last() =~= seq![FormatItem::Year, FormatItem::Literal(45), FormatItem::Month, FormatItem::Literal(45)]);
    assert(di.drop_last().drop_last() =~= seq![FormatItem::Year, FormatItem::Literal(45), FormatItem::Month]);
    assert(di.drop_last().drop_last().drop_last() =~= seq![FormatItem::Year, FormatItem::Literal(45)]);
    assert(di.drop_last().drop_last().drop_last().drop_last() =~= seq![FormatItem::Year]);
    assert(seq![FormatItem::Year].drop_last() =~= Seq::<FormatItem>::empty());
    let yt = year_text(d.spec_year());
    let mt = digits(d.spec_month(), 2);
    let dt = digits(d.spec_day(), 2);
    let text = render(di, Some(d), None, None);
    reveal_with_fuel(render, 6);
    assert(text =~= yt + seq![45u8] + mt + seq![45u8] + dt);
    lemma_digits_facts(d.spec_month(), 2);
    lemma_digits_facts(d.spec_day(), 2);
    if d.spec_year() < 0 {
        lemma_digits_facts(-d.spec_year(), 4);
        assert(yt.len() == 5 && yt[0] == 45u8);
    } else {
        lemma_digits_facts(d.spec_year(), 4);
        assert(yt.len() == 4 && is_digit(yt[0]));
    }
    let y = year_len(text);
    assert(y == yt.len());
    assert(text[y + 2] == mt[1]);
    assert(date_text(text) == text);
    assert(date_literal_items(text) =~= di);
    assert(di.contains(FormatItem::Year) && di.contains(FormatItem::Month) && di.contains(FormatItem::Day)) by {
        assert(di[0] == FormatItem::Year && di[2] == FormatItem::Month && di[4] == FormatItem::Day);
    }
    lemma_date_round_trip(d, di);

    let ti = time_literal_format();
    assert(ti.drop_last() =~= seq![FormatItem::Hour, FormatItem::Literal(58), FormatItem::Minute, FormatItem::Literal(58)]);
    assert(ti.drop_last().drop_last() =~= seq![FormatItem::Hour, FormatItem::Literal(58), FormatItem::Minute]);
    assert(ti.drop_last().drop_last().drop_last() =~= seq![FormatItem::Hour, FormatItem::Literal(58)]);
    assert(ti.drop_last().drop_last().drop_last().drop_last() =~= seq![FormatItem::Hour]);
    assert(seq![FormatItem::Hour].drop_last() =~= Seq::<FormatItem>::empty());
    let ht = digits(t.spec_hour(), 2);
    let nt = digits(t.spec_minute(), 2);
    let st = digits(t.spec_second(), 2);
    let clock = render(ti, None, Some(t), None);
    assert(clock =~= ht + seq![58u8] + nt + seq![58u8] + st);
    lemma_digits_facts(t.spec_hour(), 2);
    lemma_digits_facts(t.spec_minute(), 2);
    lemma_digits_facts(t.spec_second(), 2);
    assert(clock[5] == 58u8);
    assert(marker(clock) == 0);
    assert(clock[1] == ht[1]);
    assert(time_text(clock) == clock);
    assert(time_literal_items(clock) =~= ti);
    assert(ti.contains(FormatItem::Hour) && ti.contains(FormatItem::Minute) && ti.contains(FormatItem::Second)) by {
        assert(ti[0] == FormatItem::Hour && ti[2] == FormatItem::Minute && ti[4] == FormatItem::Second);
    }
    assert(all_time_items(ti));
    assert(all_date_items(di));
    lemma_time_round_trip(t, ti);
}

/// A text reads as a date literal in one way at most.
proof fn lemma_date_literal_unique(text: Seq<u8>)
    ensures
        forall|a: Result<Date, Parse>, b: Result<Date, Parse>|
            date_literal_result(text, a) && date_literal_result(text, b) ==> (a is Ok <==> b is Ok),
{
}

/// A text reads as a time literal in one way at most.
proof fn lemma_time_literal_unique(text: Seq<u8>)
    ensures
        forall|a: Result<Time, Parse>, b: Result<Time, Parse>|
            time_literal_result(text, a) && time_literal_result(text, b) ==> (a is Ok <==> b is Ok),
{
}

} // verus!
