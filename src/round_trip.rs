//! Rendering a date and reading the text back gives the same date.
use vstd::prelude::*;
use crate::date::{
    Date, days_before_month, lemma_days_before_month_mono, lemma_days_before_year_end,
    lemma_ordinal_unique, valid_ymd,
};
use crate::error::Parse;
use crate::clock::{Time, valid_hms_nano};
use crate::date::weekday_index;
use crate::offset::UtcOffset;
use crate::names::{lemma_month_names_distinct, lemma_weekday_names_distinct};
use crate::format::{FormatItem, digits, render, render_item, supported, year_text};
use crate::parse::{Parsed, date_from_parsed, digit_run, fraction_at, time_from_parsed, is_digit, lemma_ten_to, number_at, parse_from, parse_spec, parse_step, ten_to, value_of, year_at};

verus! {

/// The components that reading the first `k` items from a rendering of `d`
/// collects.
pub open spec fn parsed_after(items: Seq<FormatItem>, k: int, d: Date) -> Parsed
    decreases k,
{
    if k <= 0 {
        Parsed::spec_empty()
    } else {
        let p = parsed_after(items, k - 1, d);
        match items[k - 1] {
            FormatItem::Year => Parsed { year: Some(d.spec_year() as i32), ..p },
            FormatItem::Month | FormatItem::MonthName => Parsed { month: Some(d.spec_month() as u8), ..p },
            FormatItem::WeekdayName => Parsed {
                weekday: Some(weekday_index(d.spec_year(), d.spec_ordinal()) as u8),
                ..p
            },
            FormatItem::Day => Parsed { day: Some(d.spec_day() as u8), ..p },
            FormatItem::Ordinal => Parsed { ordinal: Some(d.spec_ordinal() as u16), ..p },
            _ => p,
        }
    }
}

/// `v` in `w` digits is `w` digits long, all of them digits, and they write
/// `v`.
proof fn lemma_digits(v: int, w: nat)
    requires
        0 <= v < ten_to(w),
    ensures
        digits(v, w).len() == w,
        forall|k: int| 0 <= k < w ==> is_digit(#[trigger] digits(v, w)[k]),
        value_of(digits(v, w)) == v,
    decreases w,
{
    if w > 0 {
        let t = ten_to((w - 1) as nat);
        assert(v / 10 < t) by (nonlinear_arith)
            requires v < 10 * t, 0 <= v;
        assert(0 <= v / 10) by (nonlinear_arith)
            requires 0 <= v;
        lemma_digits(v / 10, (w - 1) as nat);
        let s = digits(v, w);
        assert(s.drop_last() =~= digits(v / 10, (w - 1) as nat));
        assert(v == (v / 10) * 10 + v % 10) by (nonlinear_arith);
    } else {
        assert(v == 0);
    }
}

/// `v` in `w` digits is `w` digits long and all of them are digits.
pub proof fn lemma_digits_facts(v: int, w: nat)
    requires
        0 <= v < ten_to(w),
    ensures
        digits(v, w).len() == w,
        forall|k: int| 0 <= k < w ==> is_digit(#[trigger] digits(v, w)[k]),
{
    lemma_digits(v, w);
}

/// Reading `w` digits where `v` was rendered in `w` digits gives `v`.
proof fn lemma_read_digits(text: Seq<u8>, pos: int, v: int, w: nat, name: &'static str)
    requires
        0 <= v < ten_to(w),
        0 <= pos,
        pos + w <= text.len(),
        text.subrange(pos, pos + w) == digits(v, w),
    ensures
        number_at(text, pos, w as int, name) == Ok::<(int, int), Parse>((v, pos + w)),
{
    lemma_digits(v, w);
    assert forall|k: int| pos <= k < pos + w implies is_digit(#[trigger] text[k]) by {
        assert(text[k] == text.subrange(pos, pos + w)[k - pos]);
    }
}

/// A rendering of fewer items is the start of a rendering of more.
proof fn lemma_render_prefix(
    items: Seq<FormatItem>,
    k: int,
    n: int,
    date: Option<Date>,
    time: Option<Time>,
    offset: Option<UtcOffset>,
)
    requires
        0 <= k <= n <= items.len(),
    ensures
        render(items.take(k), date, time, offset).len() <= render(items.take(n), date, time, offset).len(),
        render(items.take(n), date, time, offset).subrange(0, render(items.take(k), date, time, offset).len() as int)
            == render(items.take(k), date, time, offset),
    decreases n - k,
{
    if k < n {
        lemma_render_prefix(items, k, n - 1, date, time, offset);
        assert(items.take(n).drop_last() =~= items.take(n - 1));
        let a = render(items.take(n - 1), date, time, offset);
        let b = render(items.take(n), date, time, offset);
        let c = render(items.take(k), date, time, offset);
        assert(b == a + render_item(items[n - 1], date, time, offset));
        assert(b.subrange(0, c.len() as int) =~= a.subrange(0, c.len() as int));
    } else {
        let c = render(items.take(k), date, time, offset);
        assert(c.subrange(0, c.len() as int) =~= c);
    }
}

/// Reading one date item where it was rendered gives back its component.
proof fn lemma_step(text: Seq<u8>, pos: int, item: FormatItem, p: Parsed, d: Date)
    requires
        valid_ymd(d.spec_year(), d.spec_month(), d.spec_day()),
        supported(item, Some(d), None, None),
        0 <= pos,
        pos + render_item(item, Some(d), None, None).len() <= text.len(),
        text.subrange(pos, pos + render_item(item, Some(d), None, None).len()) == render_item(item, Some(d), None, None),
    ensures
        parse_step(text, pos, item, p) == Ok::<(int, Parsed), Parse>((
            pos + render_item(item, Some(d), None, None).len(),
            match item {
                FormatItem::Year => Parsed { year: Some(d.spec_year() as i32), ..p },
                FormatItem::Month | FormatItem::MonthName => Parsed { month: Some(d.spec_month() as u8), ..p },
                FormatItem::WeekdayName => Parsed {
                    weekday: Some(weekday_index(d.spec_year(), d.spec_ordinal()) as u8),
                    ..p
                },
                FormatItem::Day => Parsed { day: Some(d.spec_day() as u8), ..p },
                FormatItem::Ordinal => Parsed { ordinal: Some(d.spec_ordinal() as u16), ..p },
                _ => p,
            },
        )),
{
    lemma_ten_to();
    let r = render_item(item, Some(d), None, None);
    match item {
        FormatItem::Literal(b) => {
            assert(text[pos] == text.subrange(pos, pos + 1)[0]);
        },
        FormatItem::Year => {
            let y = d.spec_year();
            if y < 0 {
                lemma_digits(-y, 4);
                assert(text[pos] == r[0]);
                assert(text.subrange(pos + 1, pos + 5) =~= r.subrange(1, 5));
                assert(r.subrange(1, 5) =~= digits(-y, 4));
                lemma_read_digits(text, pos + 1, -y, 4, "year");
            } else {
                lemma_digits(y, 4);
                assert(text[pos] == r[0]);
                assert(is_digit(r[0]));
                lemma_read_digits(text, pos, y, 4, "year");
            }
        },
        FormatItem::Month => {
            lemma_digits(d.spec_month(), 2);
            lemma_read_digits(text, pos, d.spec_month(), 2, "month");
        },
        FormatItem::MonthName => {
            lemma_month_names_distinct(d.spec_month());
        },
        FormatItem::WeekdayName => {
            lemma_weekday_names_distinct(weekday_index(d.spec_year(), d.spec_ordinal()));
        },
        FormatItem::Day => {
            lemma_digits(d.spec_day(), 2);
            lemma_read_digits(text, pos, d.spec_day(), 2, "day");
        },
        FormatItem::Ordinal => {
            lemma_days_before_year_end(d.spec_year());
            lemma_days_before_month_mono(d.spec_year(), d.spec_month() + 1, 13);
            assert(days_before_month(d.spec_year(), d.spec_month() + 1) == days_before_month(d.spec_year(), d.spec_month())
                + crate::util::month_days(d.spec_year(), d.spec_month()));
            lemma_days_before_month_mono(d.spec_year(), 1, d.spec_month());
            lemma_digits(d.spec_ordinal(), 3);
            lemma_read_digits(text, pos, d.spec_ordinal(), 3, "ordinal");
        },
        _ => {},
    }
}

/// Reading the first `k` items of a rendering of `d` stops right after their
/// text, with each component read so far equal to that of `d`.
proof fn lemma_parse_prefix(items: Seq<FormatItem>, k: int, d: Date)
    requires
        valid_ymd(d.spec_year(), d.spec_month(), d.spec_day()),
        all_date_items(items),
        0 <= k <= items.len(),
    ensures
        parse_from(render(items, Some(d), None, None), items, 0, 0, Parsed::spec_empty()) == parse_from(
            render(items, Some(d), None, None),
            items,
            k,
            render(items.take(k), Some(d), None, None).len() as int,
            parsed_after(items, k, d),
        ),
    decreases k,
{
    let text = render(items, Some(d), None, None);
    if k == 0 {
        assert(items.take(0) =~= Seq::<FormatItem>::empty());
    } else {
        lemma_parse_prefix(items, k - 1, d);
        let item = items[k - 1];
        let a = render(items.take(k - 1), Some(d), None, None);
        let r = render_item(item, Some(d), None, None);
        assert(items.take(k).drop_last() =~= items.take(k - 1));
        assert(render(items.take(k), Some(d), None, None) == a + r);
        assert(items.take(items.len() as int) =~= items);
        lemma_render_prefix(items, k, items.len() as int, Some(d), None, None);
        let b = a + r;
        assert(text.subrange(a.len() as int, (a.len() + r.len()) as int) =~= b.subrange(a.len() as int, (a.len() + r.len()) as int));
        assert(b.subrange(a.len() as int, (a.len() + r.len()) as int) =~= r);
        lemma_step(text, a.len() as int, item, parsed_after(items, k - 1, d), d);
    }
}

/// Whether `item` gives the month, in digits or by name.
pub open spec fn is_month_item(item: FormatItem) -> bool {
    item == FormatItem::Month || item == FormatItem::MonthName
}

/// Whether every item is a literal or a date component.
pub open spec fn all_date_items(items: Seq<FormatItem>) -> bool {
    forall|i: int| 0 <= i < items.len() ==> match #[trigger] items[i] {
        FormatItem::Literal(_) | FormatItem::Year | FormatItem::Month | FormatItem::MonthName
        | FormatItem::Day | FormatItem::WeekdayName | FormatItem::Ordinal => true,
        _ => false,
    }
}

/// The fields that the first `k` items read hold the components of `d`.
proof fn lemma_parsed_after(items: Seq<FormatItem>, k: int, d: Date)
    requires
        0 <= k <= items.len(),
    ensures
        (exists|j: int| 0 <= j < k && items[j] == FormatItem::Year) ==> parsed_after(items, k, d).year == Some(d.spec_year() as i32),
        (exists|j: int| 0 <= j < k && is_month_item(items[j])) ==> parsed_after(items, k, d).month == Some(d.spec_month() as u8),
        (exists|j: int| 0 <= j < k && items[j] == FormatItem::Day) ==> parsed_after(items, k, d).day == Some(d.spec_day() as u8),
        (exists|j: int| 0 <= j < k && items[j] == FormatItem::Ordinal) ==> parsed_after(items, k, d).ordinal == Some(d.spec_ordinal() as u16),
        parsed_after(items, k, d).year is Some ==> parsed_after(items, k, d).year == Some(d.spec_year() as i32),
        parsed_after(items, k, d).month is Some ==> parsed_after(items, k, d).month == Some(d.spec_month() as u8),
        parsed_after(items, k, d).day is Some ==> parsed_after(items, k, d).day == Some(d.spec_day() as u8),
        parsed_after(items, k, d).ordinal is Some ==> parsed_after(items, k, d).ordinal == Some(d.spec_ordinal() as u16),
    decreases k,
{
    if k > 0 {
        lemma_parsed_after(items, k - 1, d);
        if exists|j: int| 0 <= j < k && items[j] == FormatItem::Year {
            let j = choose|j: int| 0 <= j < k && items[j] == FormatItem::Year;
            if j < k - 1 {
                assert(exists|j: int| 0 <= j < k - 1 && items[j] == FormatItem::Year);
            }
        }
        if exists|j: int| 0 <= j < k && is_month_item(items[j]) {
            let j = choose|j: int| 0 <= j < k && is_month_item(items[j]);
            if j < k - 1 {
                assert(exists|j: int| 0 <= j < k - 1 && is_month_item(items[j]));
            }
        }
        if exists|j: int| 0 <= j < k && items[j] == FormatItem::Day {
            let j = choose|j: int| 0 <= j < k && items[j] == FormatItem::Day;
            if j < k - 1 {
                assert(exists|j: int| 0 <= j < k - 1 && items[j] == FormatItem::Day);
            }
        }
        if exists|j: int| 0 <= j < k && items[j] == FormatItem::Ordinal {
            let j = choose|j: int| 0 <= j < k && items[j] == FormatItem::Ordinal;
            if j < k - 1 {
                assert(exists|j: int| 0 <= j < k - 1 && items[j] == FormatItem::Ordinal);
            }
        }
    }
}

/// For a format of literals and date components that fixes a date (it holds
/// the year, and the month and the day or the day of the year), reading the
/// rendering of a date gives the same date back.
pub proof fn lemma_date_round_trip(d: Date, items: Seq<FormatItem>)
    requires
        valid_ymd(d.spec_year(), d.spec_month(), d.spec_day()),
        all_date_items(items),
        items.contains(FormatItem::Year),
        ((items.contains(FormatItem::Month) || items.contains(FormatItem::MonthName)) && items.contains(
            FormatItem::Day,
        )) || items.contains(
            FormatItem::Ordinal,
        ),
    ensures
        parse_spec(render(items, Some(d), None, None), items) is Ok,
        date_from_parsed(parse_spec(render(items, Some(d), None, None), items)->Ok_0, Ok(d)),
        forall|r: Result<Date, Parse>|
            date_from_parsed(parse_spec(render(items, Some(d), None, None), items)->Ok_0, r) ==> r
                == Ok::<Date, Parse>(d),
{
    let n = items.len() as int;
    let text = render(items, Some(d), None, None);
    lemma_parse_prefix(items, n, d);
    assert(items.take(n) =~= items);
    lemma_parsed_after(items, n, d);
    if items.contains(FormatItem::MonthName) {
        let j = choose|j: int| 0 <= j < items.len() && items[j] == FormatItem::MonthName;
        assert(is_month_item(items[j]));
    }
    if items.contains(FormatItem::Month) {
        let j = choose|j: int| 0 <= j < items.len() && items[j] == FormatItem::Month;
        assert(is_month_item(items[j]));
    }
    let p = parsed_after(items, n, d);
    assert(parse_spec(text, items) == Ok::<Parsed, Parse>(p));
    lemma_days_before_year_end(d.spec_year());
    lemma_days_before_month_mono(d.spec_year(), d.spec_month() + 1, 13);
    assert(days_before_month(d.spec_year(), d.spec_month() + 1) == days_before_month(d.spec_year(), d.spec_month())
        + crate::util::month_days(d.spec_year(), d.spec_month()));
    lemma_days_before_month_mono(d.spec_year(), 1, d.spec_month());
    assert forall|r: Result<Date, Parse>| date_from_parsed(p, r) implies r == Ok::<Date, Parse>(d) by {
        match r {
            Ok(v) => {
                if !(p.month is Some && p.day is Some) {
                    lemma_ordinal_unique(d.spec_year(), v.spec_month(), v.spec_day(), d.spec_month(), d.spec_day());
                }
                v.lemma_ext(d);
            },
            Err(_) => {},
        }
    }
}

/// The components that reading the first `k` items from a rendering of `t`
/// collects.
pub open spec fn parsed_after_time(items: Seq<FormatItem>, k: int, t: Time) -> Parsed
    decreases k,
{
    if k <= 0 {
        Parsed::spec_empty()
    } else {
        let p = parsed_after_time(items, k - 1, t);
        match items[k - 1] {
            FormatItem::Hour => Parsed { hour: Some(t.spec_hour() as u8), ..p },
            FormatItem::Minute => Parsed { minute: Some(t.spec_minute() as u8), ..p },
            FormatItem::Second => Parsed { second: Some(t.spec_second() as u8), ..p },
            FormatItem::Subsecond => Parsed { nanosecond: Some(t.spec_nanosecond() as u32), ..p },
            _ => p,
        }
    }
}

/// Whether every item is a literal or a time component.
pub open spec fn all_time_items(items: Seq<FormatItem>) -> bool {
    forall|i: int| 0 <= i < items.len() ==> match #[trigger] items[i] {
        FormatItem::Literal(_) | FormatItem::Hour | FormatItem::Minute | FormatItem::Second
        | FormatItem::Subsecond => true,
        _ => false,
    }
}

/// A run of `n` digits is counted whole.
proof fn lemma_digit_run(text: Seq<u8>, pos: int, n: nat)
    requires
        0 <= pos,
        pos + n <= text.len(),
        forall|k: int| pos <= k < pos + n ==> is_digit(#[trigger] text[k]),
    ensures
        digit_run(text, pos, n) == n,
    decreases n,
{
    if n > 0 {
        lemma_digit_run(text, pos + 1, (n - 1) as nat);
    }
}

/// Reading one time item where it was rendered gives back its component.
proof fn lemma_time_step(text: Seq<u8>, pos: int, item: FormatItem, p: Parsed, t: Time)
    requires
        valid_hms_nano(t.spec_hour(), t.spec_minute(), t.spec_second(), t.spec_nanosecond()),
        supported(item, None, Some(t), None),
        0 <= pos,
        pos + render_item(item, None, Some(t), None).len() <= text.len(),
        text.subrange(pos, pos + render_item(item, None, Some(t), None).len()) == render_item(item, None, Some(t), None),
    ensures
        parse_step(text, pos, item, p) == Ok::<(int, Parsed), Parse>((
            pos + render_item(item, None, Some(t), None).len(),
            match item {
                FormatItem::Hour => Parsed { hour: Some(t.spec_hour() as u8), ..p },
                FormatItem::Minute => Parsed { minute: Some(t.spec_minute() as u8), ..p },
                FormatItem::Second => Parsed { second: Some(t.spec_second() as u8), ..p },
                FormatItem::Subsecond => Parsed { nanosecond: Some(t.spec_nanosecond() as u32), ..p },
                _ => p,
            },
        )),
{
    lemma_ten_to();
    reveal_with_fuel(ten_to, 10);
    match item {
        FormatItem::Literal(b) => {
            assert(text[pos] == text.subrange(pos, pos + 1)[0]);
        },
        FormatItem::Hour => {
            lemma_digits(t.spec_hour(), 2);
            lemma_read_digits(text, pos, t.spec_hour(), 2, "hour");
        },
        FormatItem::Minute => {
            lemma_digits(t.spec_minute(), 2);
            lemma_read_digits(text, pos, t.spec_minute(), 2, "minute");
        },
        FormatItem::Second => {
            lemma_digits(t.spec_second(), 2);
            lemma_read_digits(text, pos, t.spec_second(), 2, "second");
        },
        FormatItem::Subsecond => {
            let v = t.spec_nanosecond();
            assert(ten_to(9) == 1_000_000_000);
            lemma_digits(v, 9);
            assert forall|k: int| pos <= k < pos + 9 implies is_digit(#[trigger] text[k]) by {
                assert(text[k] == text.subrange(pos, pos + 9)[k - pos]);
            }
            lemma_digit_run(text, pos, 9);
            let n = digit_run(text, pos, 9);
            let x = value_of(text.subrange(pos, pos + n));
            let y = ten_to((9 - n) as nat);
            assert(x == v);
            assert(x * y == v) by (nonlinear_arith)
                requires x == v, y == 1;
            assert(fraction_at(text, pos) == Ok::<(int, int), Parse>((v, pos + 9)));
        },
        _ => {},
    }
}

/// Reading the first `k` items of a rendering of `t` stops right after their
/// text, with each component read so far equal to that of `t`.
proof fn lemma_time_parse_prefix(items: Seq<FormatItem>, k: int, t: Time)
    requires
        valid_hms_nano(t.spec_hour(), t.spec_minute(), t.spec_second(), t.spec_nanosecond()),
        all_time_items(items),
        0 <= k <= items.len(),
    ensures
        parse_from(render(items, None, Some(t), None), items, 0, 0, Parsed::spec_empty()) == parse_from(
            render(items, None, Some(t), None),
            items,
            k,
            render(items.take(k), None, Some(t), None).len() as int,
            parsed_after_time(items, k, t),
        ),
    decreases k,
{
    let text = render(items, None, Some(t), None);
    if k == 0 {
        assert(items.take(0) =~= Seq::<FormatItem>::empty());
    } else {
        lemma_time_parse_prefix(items, k - 1, t);
        let item = items[k - 1];
        let a = render(items.take(k - 1), None, Some(t), None);
        let r = render_item(item, None, Some(t), None);
        assert(items.take(k).drop_last() =~= items.take(k - 1));
        assert(render(items.take(k), None, Some(t), None) == a + r);
        assert(items.take(items.len() as int) =~= items);
        lemma_render_prefix(items, k, items.len() as int, None, Some(t), None);
        let b = a + r;
        assert(text.subrange(a.len() as int, (a.len() + r.len()) as int) =~= b.subrange(a.len() as int, (a.len() + r.len()) as int));
        assert(b.subrange(a.len() as int, (a.len() + r.len()) as int) =~= r);
        lemma_time_step(text, a.len() as int, item, parsed_after_time(items, k - 1, t), t);
    }
}

/// The fields that the first `k` items read hold the components of `t`.
proof fn lemma_parsed_after_time(items: Seq<FormatItem>, k: int, t: Time)
    requires
        0 <= k <= items.len(),
    ensures
        (exists|j: int| 0 <= j < k && items[j] == FormatItem::Hour) ==> parsed_after_time(items, k, t).hour == Some(t.spec_hour() as u8),
        (exists|j: int| 0 <= j < k && items[j] == FormatItem::Minute) ==> parsed_after_time(items, k, t).minute == Some(t.spec_minute() as u8),
        (exists|j: int| 0 <= j < k && items[j] == FormatItem::Second) ==> parsed_after_time(items, k, t).second == Some(t.spec_second() as u8),
        (exists|j: int| 0 <= j < k && items[j] == FormatItem::Subsecond) ==> parsed_after_time(items, k, t).nanosecond == Some(t.spec_nanosecond() as u32),
        parsed_after_time(items, k, t).second is Some ==> parsed_after_time(items, k, t).second == Some(t.spec_second() as u8),
        parsed_after_time(items, k, t).nanosecond is Some ==> parsed_after_time(items, k, t).nanosecond == Some(t.spec_nanosecond() as u32),
    decreases k,
{
    if k > 0 {
        lemma_parsed_after_time(items, k - 1, t);
        if exists|j: int| 0 <= j < k && items[j] == FormatItem::Hour {
            let j = choose|j: int| 0 <= j < k && items[j] == FormatItem::Hour;
            if j < k - 1 {
                assert(exists|j: int| 0 <= j < k - 1 && items[j] == FormatItem::Hour);
            }
        }
        if exists|j: int| 0 <= j < k && items[j] == FormatItem::Minute {
            let j = choose|j: int| 0 <= j < k && items[j] == FormatItem::Minute;
            if j < k - 1 {
                assert(exists|j: int| 0 <= j < k - 1 && items[j] == FormatItem::Minute);
            }
        }
        if exists|j: int| 0 <= j < k && items[j] == FormatItem::Second {
            let j = choose|j: int| 0 <= j < k && items[j] == FormatItem::Second;
            if j < k - 1 {
                assert(exists|j: int| 0 <= j < k - 1 && items[j] == FormatItem::Second);
            }
        }
        if exists|j: int| 0 <= j < k && items[j] == FormatItem::Subsecond {
            let j = choose|j: int| 0 <= j < k && items[j] == FormatItem::Subsecond;
            if j < k - 1 {
                assert(exists|j: int| 0 <= j < k - 1 && items[j] == FormatItem::Subsecond);
            }
        }
    }
}

/// For a format of literals and time components that holds the hour and the
/// minute, reading the rendering of a time gives the same time back, when
/// the format also holds the second or the second is 0, and the fraction or
/// the fraction is 0.
pub proof fn lemma_time_round_trip(t: Time, items: Seq<FormatItem>)
    requires
        valid_hms_nano(t.spec_hour(), t.spec_minute(), t.spec_second(), t.spec_nanosecond()),
        all_time_items(items),
        items.contains(FormatItem::Hour),
        items.contains(FormatItem::Minute),
        items.contains(FormatItem::Second) || t.spec_second() == 0,
        items.contains(FormatItem::Subsecond) || t.spec_nanosecond() == 0,
    ensures
        parse_spec(render(items, None, Some(t), None), items) is Ok,
        time_from_parsed(parse_spec(render(items, None, Some(t), None), items)->Ok_0, Ok(t)),
        forall|r: Result<Time, Parse>|
            time_from_parsed(parse_spec(render(items, None, Some(t), None), items)->Ok_0, r) ==> r
                == Ok::<Time, Parse>(t),
{
    let n = items.len() as int;
    let text = render(items, None, Some(t), None);
    lemma_time_parse_prefix(items, n, t);
    assert(items.take(n) =~= items);
    lemma_parsed_after_time(items, n, t);
    let p = parsed_after_time(items, n, t);
    assert(parse_spec(text, items) == Ok::<Parsed, Parse>(p));
    assert forall|r: Result<Time, Parse>| time_from_parsed(p, r) implies r == Ok::<Time, Parse>(t) by {
        match r {
            Ok(v) => {
                v.lemma_ext(t);
            },
            Err(_) => {},
        }
    }
}

} // verus!
