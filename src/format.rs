//! A small format language: render values as text and read them back.
use vstd::prelude::*;
use crate::clock::Time;
use crate::date::{Date, weekday_index};
use crate::names::{month_name, month_name_bytes, weekday_name, weekday_name_bytes};
use crate::datetime::{OffsetDateTime, PrimitiveDateTime};
use crate::error::Format;
use crate::offset::UtcOffset;

verus! {

/// One item of a format description.
#[derive(Debug, Clone, Copy, PartialEq, Eq, Structural, Hash)]
pub enum FormatItem {
    /// This byte, as it stands.
    Literal(u8),
    /// The year in four digits, after a `-` when negative.
    Year,
    /// The month in two digits.
    Month,
    /// The month as its three-letter English name: `Jan` to `Dec`.
    MonthName,
    /// The day of the month in two digits.
    Day,
    /// The day of the week as its three-letter English name: `Mon` to `Sun`.
    WeekdayName,
    /// The day of the year in three digits.
    Ordinal,
    /// The hour in two digits.
    Hour,
    /// The minute in two digits.
    Minute,
    /// The second in two digits.
    Second,
    /// The fraction of the second in nine digits; when read, one to nine
    /// digits, as many as stand there.
    Subsecond,
    /// The offset from UTC as `+HH:MM`, or `+HH:MM:SS` when it has seconds;
    /// `-` in place of `+` west of UTC.
    Offset,
}

/// `v` in exactly `w` decimal digits, most significant first.
pub open spec fn digits(v: int, w: nat) -> Seq<u8>
    decreases w,
{
    if w == 0 {
        seq![]
    } else {
        digits(v / 10, (w - 1) as nat).push((48 + v % 10) as u8)
    }
}

/// Whether `item` can be rendered from the components at hand.
pub open spec fn supported(item: FormatItem, date: Option<Date>, time: Option<Time>, offset: Option<
    UtcOffset,
>) -> bool {
    match item {
        FormatItem::Literal(_) => true,
        FormatItem::Year | FormatItem::Month | FormatItem::MonthName | FormatItem::Day
        | FormatItem::WeekdayName | FormatItem::Ordinal => date is Some,
        FormatItem::Hour | FormatItem::Minute | FormatItem::Second | FormatItem::Subsecond => time is Some,
        FormatItem::Offset => offset is Some,
    }
}

/// Whether every item can be rendered from the components at hand.
pub open spec fn all_supported(items: Seq<FormatItem>, date: Option<Date>, time: Option<Time>, offset: Option<
    UtcOffset,
>) -> bool {
    forall|i: int| 0 <= i < items.len() ==> #[trigger] supported(items[i], date, time, offset)
}

/// The text of an offset of `s` seconds.
pub open spec fn offset_text(s: int) -> Seq<u8> {
    let m = if s < 0 { -s } else { s };
    let sign: u8 = if s < 0 { 45 } else { 43 };
    let hm = seq![sign] + digits(m / 3600, 2) + seq![58u8] + digits((m % 3600) / 60, 2);
    if m % 60 == 0 { hm } else { hm + seq![58u8] + digits(m % 60, 2) }
}

/// The text of the year `y`.
pub open spec fn year_text(y: int) -> Seq<u8> {
    if y < 0 { seq![45u8] + digits(-y, 4) } else { digits(y, 4) }
}

/// The text of one supported item.
pub open spec fn render_item(item: FormatItem, date: Option<Date>, time: Option<Time>, offset: Option<
    UtcOffset,
>) -> Seq<u8> {
    match item {
        FormatItem::Literal(b) => seq![b],
        FormatItem::Year => year_text(date.unwrap().spec_year()),
        FormatItem::Month => digits(date.unwrap().spec_month(), 2),
        FormatItem::MonthName => month_name(date.unwrap().spec_month()),
        FormatItem::Day => digits(date.unwrap().spec_day(), 2),
        FormatItem::WeekdayName => weekday_name(
            weekday_index(date.unwrap().spec_year(), date.unwrap().spec_ordinal()),
        ),
        FormatItem::Ordinal => digits(date.unwrap().spec_ordinal(), 3),
        FormatItem::Hour => digits(time.unwrap().spec_hour(), 2),
        FormatItem::Minute => digits(time.unwrap().spec_minute(), 2),
        FormatItem::Second => digits(time.unwrap().spec_second(), 2),
        FormatItem::Subsecond => digits(time.unwrap().spec_nanosecond(), 9),
        FormatItem::Offset => offset_text(offset.unwrap().spec_seconds()),
    }
}

/// The text of all the items, one after another.
pub open spec fn render(items: Seq<FormatItem>, date: Option<Date>, time: Option<Time>, offset: Option<
    UtcOffset,
>) -> Seq<u8>
    decreases items.len(),
{
    if items.len() == 0 {
        seq![]
    } else {
        render(items.drop_last(), date, time, offset) + render_item(items.last(), date, time, offset)
    }
}

/// The result of formatting: the text when every item is supported, else
/// `InsufficientTypeInformation`.
pub open spec fn format_result(items: Seq<FormatItem>, date: Option<Date>, time: Option<Time>, offset: Option<
    UtcOffset,
>) -> Result<Seq<u8>, Format> {
    if all_supported(items, date, time, offset) {
        Ok(render(items, date, time, offset))
    } else {
        Err(Format::InsufficientTypeInformation)
    }
}

/// Appends `v` in exactly `w` digits.
fn push_digits(out: &mut Vec<u8>, v: u32, w: usize)
    ensures
        final(out)@ == old(out)@ + digits(v as int, w as nat),
    decreases w,
{
    if w > 0 {
        push_digits(out, v / 10, w - 1);
        out.push((48 + v % 10) as u8);
    }
}

/// Appends the text of one supported item.
fn push_item(out: &mut Vec<u8>, item: FormatItem, date: Option<Date>, time: Option<Time>, offset: Option<
    UtcOffset,
>)
    requires
        supported(item, date, time, offset),
    ensures
        final(out)@ == old(out)@ + render_item(item, date, time, offset),
{
    let ghost start = out@;
    match item {
        FormatItem::Literal(b) => {
            out.push(b);
        },
        FormatItem::Year => {
            let y = date.unwrap().year();
            if y < 0 {
                out.push(45);
                push_digits(out, (-y) as u32, 4);
                assert(out@ =~= start + year_text(y as int));
            } else {
                push_digits(out, y as u32, 4);
            }
        },
        FormatItem::Month => push_digits(out, date.unwrap().month() as u32, 2),
        FormatItem::MonthName => {
            let (a, b, c) = month_name_bytes(date.unwrap().month());
            out.push(a);
            out.push(b);
            out.push(c);
            assert(out@ =~= start + seq![a, b, c]);
        },
        FormatItem::Day => push_digits(out, date.unwrap().day() as u32, 2),
        FormatItem::WeekdayName => {
            let w = date.unwrap().weekday();
            let (a, b, c) = weekday_name_bytes(w.number_from_monday() - 1);
            out.push(a);
            out.push(b);
            out.push(c);
            assert(out@ =~= start + seq![a, b, c]);
        },
        FormatItem::Ordinal => push_digits(out, date.unwrap().ordinal() as u32, 3),
        FormatItem::Hour => push_digits(out, time.unwrap().hour() as u32, 2),
        FormatItem::Minute => push_digits(out, time.unwrap().minute() as u32, 2),
        FormatItem::Second => push_digits(out, time.unwrap().second() as u32, 2),
        FormatItem::Subsecond => push_digits(out, time.unwrap().nanosecond(), 9),
        FormatItem::Offset => {
            let s = offset.unwrap().whole_seconds();
            let m: u32 = if s < 0 { (-s) as u32 } else { s as u32 };
            out.push(if s < 0 { 45 } else { 43 });
            push_digits(out, m / 3600, 2);
            out.push(58);
            push_digits(out, (m % 3600) / 60, 2);
            if m % 60 != 0 {
                out.push(58);
                push_digits(out, m % 60, 2);
            }
            assert(out@ =~= start + offset_text(s as int));
        },
    }
}

/// Renders the components at hand with `items`. Fails with
/// `InsufficientTypeInformation` when an item asks for a component that is
/// not at hand.
pub fn format_parts(items: &[FormatItem], date: Option<Date>, time: Option<Time>, offset: Option<UtcOffset>) -> (r: Result<
    Vec<u8>,
    Format,
>)
    ensures
        r matches Ok(v) ==> format_result(items@, date, time, offset) == Ok::<Seq<u8>, Format>(v@),
        r matches Err(e) ==> format_result(items@, date, time, offset) == Err::<Seq<u8>, Format>(e),
{
    let mut out: Vec<u8> = Vec::new();
    let mut i: usize = 0;
    while i < items.len()
        invariant
            0 <= i <= items@.len(),
            out@ == render(items@.take(i as int), date, time, offset),
            all_supported(items@.take(i as int), date, time, offset),
        decreases items@.len() - i,
    {
        let item = items[i];
        let ok = match item {
            FormatItem::Literal(_) => true,
            FormatItem::Year | FormatItem::Month | FormatItem::MonthName | FormatItem::Day
            | FormatItem::WeekdayName | FormatItem::Ordinal => date.is_some(),
            FormatItem::Hour | FormatItem::Minute | FormatItem::Second | FormatItem::Subsecond => time.is_some(),
            FormatItem::Offset => offset.is_some(),
        };
        if !ok {
            assert(!supported(items@[i as int], date, time, offset));
            return Err(Format::InsufficientTypeInformation);
        }
        push_item(&mut out, item, date, time, offset);
        proof {
            let next = items@.take(i as int + 1);
            assert(next.drop_last() =~= items@.take(i as int));
            assert forall|j: int| 0 <= j < next.len() implies #[trigger] supported(next[j], date, time, offset) by {
                if j < i {
                    assert(items@.take(i as int)[j] == next[j]);
                }
            }
        }
        i = i + 1;
    }
    assert(items@.take(i as int) =~= items@);
    Ok(out)
}

impl Date {
    /// Renders the date with `items`; time and offset items are refused.
    pub fn format(&self, items: &[FormatItem]) -> (r: Result<Vec<u8>, Format>)
        ensures
            r matches Ok(v) ==> format_result(items@, Some(*self), None, None) == Ok::<Seq<u8>, Format>(v@),
            r matches Err(e) ==> format_result(items@, Some(*self), None, None) == Err::<Seq<u8>, Format>(e),
    {
        format_parts(items, Some(*self), None, None)
    }
}

impl Time {
    /// Renders the time with `items`; date and offset items are refused.
    pub fn format(&self, items: &[FormatItem]) -> (r: Result<Vec<u8>, Format>)
        ensures
            r matches Ok(v) ==> format_result(items@, None, Some(*self), None) == Ok::<Seq<u8>, Format>(v@),
            r matches Err(e) ==> format_result(items@, None, Some(*self), None) == Err::<Seq<u8>, Format>(e),
    {
        format_parts(items, None, Some(*self), None)
    }
}

impl PrimitiveDateTime {
    /// Renders the date and time with `items`; offset items are refused.
    pub fn format(&self, items: &[FormatItem]) -> (r: Result<Vec<u8>, Format>)
        ensures
            r matches Ok(v) ==> format_result(items@, Some(self.date), Some(self.time), None) == Ok::<Seq<u8>, Format>(v@),
            r matches Err(e) ==> format_result(items@, Some(self.date), Some(self.time), None) == Err::<Seq<u8>, Format>(e),
    {
        format_parts(items, Some(self.date), Some(self.time), None)
    }
}

impl OffsetDateTime {
    /// Renders the date, time and offset with `items`.
    pub fn format(&self, items: &[FormatItem]) -> (r: Result<Vec<u8>, Format>)
        ensures
            r matches Ok(v) ==> format_result(items@, Some(self.datetime.date), Some(self.datetime.time), Some(self.offset)) == Ok::<Seq<u8>, Format>(v@),
            r matches Err(e) ==> format_result(items@, Some(self.datetime.date), Some(self.datetime.time), Some(self.offset)) == Err::<Seq<u8>, Format>(e),
    {
        format_parts(items, Some(self.datetime.date), Some(self.datetime.time), Some(self.offset))
    }
}

/// A format with an offset item cannot render a date and time that have no
/// offset, and fails with `InsufficientTypeInformation`; the same format
/// renders any date, time and offset together.
pub proof fn lemma_offset_needs_offset(items: Seq<FormatItem>, dt: PrimitiveDateTime, offset: UtcOffset)
    requires
        items.contains(FormatItem::Offset),
    ensures
        format_result(items, Some(dt.date), Some(dt.time), None) == Err::<Seq<u8>, Format>(
            Format::InsufficientTypeInformation,
        ),
        format_result(items, Some(dt.date), Some(dt.time), Some(offset)) is Ok,
{
    let i = choose|i: int| 0 <= i < items.len() && items[i] == FormatItem::Offset;
    assert(!supported(items[i], Some(dt.date), Some(dt.time), None));
}

} // verus!
