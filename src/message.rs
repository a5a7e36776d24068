//! The text of each error.
use vstd::prelude::*;
use vstd::string::StrSliceExecFns;
use vstd::string::StringExecFns;
use crate::error::{ComponentRange, ConversionRange, Error, Format, IndeterminateOffset, Parse};

verus! {

/// The character of the decimal digit `d`.
pub open spec fn digit_char(d: int) -> char {
    (48 + d) as char
}

/// `v` in decimal, without leading zeros.
pub open spec fn dec(v: nat) -> Seq<char>
    decreases v,
{
    if v < 10 {
        seq![digit_char(v as int)]
    } else {
        dec(v / 10).push(digit_char((v % 10) as int))
    }
}

/// `v` in decimal, after a `-` when negative.
pub open spec fn int_text(v: int) -> Seq<char> {
    if v < 0 { seq!['-'] + dec((-v) as nat) } else { dec(v as nat) }
}

/// `name=value`.
pub open spec fn pair_text(g: (&'static str, i64)) -> Seq<char> {
    g.0@ + seq!['='] + int_text(g.1 as int)
}

/// The pairs, separated by `, `.
pub open spec fn pairs_text(g: Seq<(&'static str, i64)>) -> Seq<char>
    decreases g.len(),
{
    if g.len() == 0 {
        seq![]
    } else if g.len() == 1 {
        pair_text(g[0])
    } else {
        pairs_text(g.drop_last()) + seq![',', ' '] + pair_text(g.last())
    }
}

/// `<component> must be in the range <min>..=<max> given <name>=<value>, ...
/// (was <value>)`, without the `given` part when there is no context.
pub open spec fn range_message(e: ComponentRange) -> Seq<char> {
    e.component_name@ + " must be in the range "@ + int_text(e.minimum as int) + "..="@ + int_text(
        e.maximum as int,
    ) + (if e.given@.len() == 0 {
        Seq::<char>::empty()
    } else {
        " given "@ + pairs_text(e.given@)
    }) + " (was "@ + int_text(e.value as int) + ")"@
}

/// The text of a formatting error.
pub open spec fn format_message(e: Format) -> Seq<char> {
    match e {
        Format::InsufficientTypeInformation => "The format provided requires more information than the type provides."@,
        Format::StdFmtError => "an error occurred when formatting an argument"@,
    }
}

/// The text of a parsing error.
pub open spec fn parse_message(e: Parse) -> Seq<char> {
    match e {
        Parse::UnexpectedEndOfString => "unexpected end of string"@,
        Parse::UnexpectedCharacter { .. } => "unexpected character"@,
        Parse::InvalidNumber { component_name } => "invalid number for "@ + component_name@,
        Parse::ValueTooLarge { component_name } => "value too large for "@ + component_name@,
        Parse::UnknownName { component_name } => "unknown name for "@ + component_name@,
        Parse::TrailingInput => "unexpected input after the end of the format"@,
        Parse::InsufficientInformation => "insufficient information to build the value"@,
        Parse::ComponentOutOfRange(c) => range_message(*c),
    }
}

/// The text of an error.
pub open spec fn error_message(e: Error) -> Seq<char> {
    match e {
        Error::ConversionRange => "Source value is out of range for the target type"@,
        Error::ComponentRange(c) => range_message(*c),
        Error::Parse(p) => parse_message(p),
        Error::Format(f) => format_message(f),
        Error::IndeterminateOffset => "The system's UTC offset could not be determined"@,
    }
}

/// The one-character text of the digit `d`.
fn digit_str(d: u64) -> (r: &'static str)
    requires
        d < 10,
    ensures
        r@ == seq![digit_char(d as int)],
{
    proof {
        reveal_strlit("0");
        reveal_strlit("1");
        reveal_strlit("2");
        reveal_strlit("3");
        reveal_strlit("4");
        reveal_strlit("5");
        reveal_strlit("6");
        reveal_strlit("7");
        reveal_strlit("8");
        reveal_strlit("9");
    }
    match d {
        0 => "0",
        1 => "1",
        2 => "2",
        3 => "3",
        4 => "4",
        5 => "5",
        6 => "6",
        7 => "7",
        8 => "8",
        _ => "9",
    }
}

/// Appends `v` in decimal.
fn push_dec(s: &mut String, v: u64)
    ensures
        final(s)@ == old(s)@ + dec(v as nat),
    decreases v,
{
    if v >= 10 {
        push_dec(s, v / 10);
    }
    s.append(digit_str(v % 10));
    proof {
        if v < 10 {
            assert(v % 10 == v);
        }
        assert(final(s)@ =~= old(s)@ + dec(v as nat));
    }
}

/// Appends `v` in decimal, after a `-` when negative.
fn push_int(s: &mut String, v: i64)
    ensures
        final(s)@ == old(s)@ + int_text(v as int),
{
    if v < 0 {
        s.append("-");
        proof {
            reveal_strlit("-");
        }
        let m: u64 = (0i128 - v as i128) as u64;
        push_dec(s, m);
        assert(final(s)@ =~= old(s)@ + int_text(v as int));
    } else {
        push_dec(s, v as u64);
    }
}

/// Appends `name=value`.
fn push_pair(s: &mut String, g: (&'static str, i64))
    ensures
        final(s)@ == old(s)@ + pair_text(g),
{
    s.append(g.0);
    s.append("=");
    proof {
        reveal_strlit("=");
    }
    push_int(s, g.1);
    assert(final(s)@ =~= old(s)@ + pair_text(g));
}

impl ComponentRange {
    /// The text of the error.
    pub fn message(&self) -> (r: String)
        ensures
            r@ == range_message(*self),
    {
        let mut s = String::from_str(self.component_name);
        s.append(" must be in the range ");
        push_int(&mut s, self.minimum);
        s.append("..=");
        push_int(&mut s, self.maximum);
        let ghost before = s@;
        if self.given.len() > 0 {
            s.append(" given ");
            let ghost mid = s@;
            let mut i: usize = 0;
            while i < self.given.len()
                invariant
                    0 <= i <= self.given@.len(),
                    self.given@.len() > 0,
                    s@ == mid + pairs_text(self.given@.take(i as int)),
                decreases self.given@.len() - i,
            {
                let ghost prev = s@;
                if i > 0 {
                    s.append(", ");
                    proof {
                        reveal_strlit(", ");
                    }
                }
                push_pair(&mut s, self.given[i]);
                proof {
                    let t = self.given@.take(i as int + 1);
                    assert(t.drop_last() =~= self.given@.take(i as int));
                    if i == 0 {
                        assert(self.given@.take(0) =~= Seq::<(&'static str, i64)>::empty());
                    }
                    assert(s@ =~= mid + pairs_text(t));
                }
                i = i + 1;
            }
            assert(self.given@.take(i as int) =~= self.given@);
        }
        s.append(" (was ");
        push_int(&mut s, self.value);
        s.append(")");
        assert(s@ =~= range_message(*self));
        s
    }
}

impl Format {
    /// The text of the error.
    pub fn message(&self) -> (r: String)
        ensures
            r@ == format_message(*self),
    {
        match self {
            Format::InsufficientTypeInformation => String::from_str(
                "The format provided requires more information than the type provides.",
            ),
            Format::StdFmtError => String::from_str("an error occurred when formatting an argument"),
        }
    }
}

impl Parse {
    /// The text of the error.
    pub fn message(&self) -> (r: String)
        ensures
            r@ == parse_message(*self),
    {
        match self {
            Parse::UnexpectedEndOfString => String::from_str("unexpected end of string"),
            Parse::UnexpectedCharacter { .. } => String::from_str("unexpected character"),
            Parse::InvalidNumber { component_name } => {
                let s = String::from_str("invalid number for ");
                s.concat(component_name)
            },
            Parse::ValueTooLarge { component_name } => {
                let s = String::from_str("value too large for ");
                s.concat(component_name)
            },
            Parse::UnknownName { component_name } => {
                let s = String::from_str("unknown name for ");
                s.concat(component_name)
            },
            Parse::TrailingInput => String::from_str("unexpected input after the end of the format"),
            Parse::InsufficientInformation => String::from_str("insufficient information to build the value"),
            Parse::ComponentOutOfRange(c) => c.message(),
        }
    }
}

impl Error {
    /// The text of the error.
    pub fn message(&self) -> (r: String)
        ensures
            r@ == error_message(*self),
    {
        match self {
            Error::ConversionRange => String::from_str("Source value is out of range for the target type"),
            Error::ComponentRange(c) => c.message(),
            Error::Parse(p) => p.message(),
            Error::Format(f) => f.message(),
            Error::IndeterminateOffset => String::from_str("The system's UTC offset could not be determined"),
        }
    }
}

impl ConversionRange {
    /// The text of the error.
    pub fn message(&self) -> (r: String)
        ensures
            r@ == error_message(Error::ConversionRange),
    {
        String::from_str("Source value is out of range for the target type")
    }
}

impl IndeterminateOffset {
    /// The text of the error.
    pub fn message(&self) -> (r: String)
        ensures
            r@ == error_message(Error::IndeterminateOffset),
    {
        String::from_str("The system's UTC offset could not be determined")
    }
}

} // verus!
