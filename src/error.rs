//! The errors returned by the fallible operations of this crate.
use vstd::prelude::*;

verus! {

/// A conversion failed because the target type could not store the value.
#[derive(Debug, Clone, Copy, PartialEq, Eq, Hash, PartialOrd, Ord)]
pub struct ConversionRange;

/// A component given to a constructor or read by the parser was out of range.
#[derive(Debug, Clone, PartialEq, Eq, Hash)]
pub struct ComponentRange {
    /// Name of the component.
    pub component_name: &'static str,
    /// Minimum allowed value, inclusive.
    pub minimum: i64,
    /// Maximum allowed value, inclusive.
    pub maximum: i64,
    /// Value that was provided.
    pub value: i64,
    /// The minimum and/or maximum is only valid with these other values.
    pub given: Vec<(&'static str, i64)>,
}

/// The system's UTC offset could not be determined.
#[derive(Debug, Clone, Copy, PartialEq, Eq, Hash, PartialOrd, Ord)]
pub struct IndeterminateOffset;

/// An error occurred while formatting.
#[derive(Debug, Clone, Copy, PartialEq, Eq, Hash, PartialOrd, Ord)]
#[non_exhaustive]
pub enum Format {
    /// The format provided requires more information than the type provides.
    InsufficientTypeInformation,
    /// An error occurred while formatting into the provided stream.
    StdFmtError,
}

/// An error occurred while parsing text against a format description.
#[derive(Debug, Clone, PartialEq, Eq)]
#[non_exhaustive]
pub enum Parse {
    /// The input ended before the format description did.
    UnexpectedEndOfString,
    /// A character of the input differs from a literal of the format.
    UnexpectedCharacter { expected: u8, given: u8 },
    /// A numeric component held something other than a digit.
    InvalidNumber { component_name: &'static str },
    /// A number was read but its value does not fit the value being built.
    ValueTooLarge { component_name: &'static str },
    /// Three letters named no month or day of the week.
    UnknownName { component_name: &'static str },
    /// Input was left over after the last item of the format.
    TrailingInput,
    /// The format does not name every component that the value needs.
    InsufficientInformation,
    /// A component was read but lies out of its range.
    ComponentOutOfRange(Box<ComponentRange>),
}

/// A unified error type for anything returned by a method in this crate.
#[derive(Debug, Clone, PartialEq, Eq)]
#[non_exhaustive]
pub enum Error {
    ConversionRange,
    ComponentRange(Box<ComponentRange>),
    Parse(Parse),
    Format(Format),
    IndeterminateOffset,
}

impl From<ConversionRange> for Error {
    fn from(_e: ConversionRange) -> (r: Error)
        ensures
            r is ConversionRange,
    {
        Error::ConversionRange
    }
}

impl vstd::std_specs::convert::FromSpecImpl<ConversionRange> for Error {
    open spec fn obeys_from_spec() -> bool {
        true
    }

    open spec fn from_spec(_e: ConversionRange) -> Error {
        Error::ConversionRange
    }
}

impl From<ComponentRange> for Error {
    fn from(e: ComponentRange) -> (r: Error)
        ensures
            r == Error::ComponentRange(Box::new(e)),
    {
        Error::ComponentRange(Box::new(e))
    }
}

impl vstd::std_specs::convert::FromSpecImpl<ComponentRange> for Error {
    open spec fn obeys_from_spec() -> bool {
        true
    }

    open spec fn from_spec(e: ComponentRange) -> Error {
        Error::ComponentRange(Box::new(e))
    }
}

impl From<Parse> for Error {
    fn from(e: Parse) -> (r: Error)
        ensures
            r == Error::Parse(e),
    {
        Error::Parse(e)
    }
}

impl vstd::std_specs::convert::FromSpecImpl<Parse> for Error {
    open spec fn obeys_from_spec() -> bool {
        true
    }

    open spec fn from_spec(e: Parse) -> Error {
        Error::Parse(e)
    }
}

impl From<IndeterminateOffset> for Error {
    fn from(_e: IndeterminateOffset) -> (r: Error)
        ensures
            r is IndeterminateOffset,
    {
        Error::IndeterminateOffset
    }
}

impl vstd::std_specs::convert::FromSpecImpl<IndeterminateOffset> for Error {
    open spec fn obeys_from_spec() -> bool {
        true
    }

    open spec fn from_spec(_e: IndeterminateOffset) -> Error {
        Error::IndeterminateOffset
    }
}

impl From<Format> for Error {
    fn from(e: Format) -> (r: Error)
        ensures
            r == Error::Format(e),
    {
        Error::Format(e)
    }
}

impl vstd::std_specs::convert::FromSpecImpl<Format> for Error {
    open spec fn obeys_from_spec() -> bool {
        true
    }

    open spec fn from_spec(e: Format) -> Error {
        Error::Format(e)
    }
}

impl ComponentRange {
    /// Whether this error names `name`, the bounds `minimum..=maximum` and
    /// `value`, with no context.
    pub open spec fn is(self, name: Seq<char>, minimum: int, maximum: int, value: int) -> bool {
        self.component_name@ == name && self.minimum == minimum && self.maximum == maximum
            && self.value == value && self.given@.len() == 0
    }
}

/// Declares std's `fmt::Error`, the unit error of a failed write to a
/// formatter, so that it can be converted; nothing is assumed of it.
#[verifier::external_type_specification]
#[verifier::external_body]
pub struct ExFmtError(core::fmt::Error);

impl From<core::fmt::Error> for Format {
    fn from(_e: core::fmt::Error) -> (r: Format)
        ensures
            r == Format::StdFmtError,
    {
        Format::StdFmtError
    }
}

impl vstd::std_specs::convert::FromSpecImpl<core::fmt::Error> for Format {
    open spec fn obeys_from_spec() -> bool {
        true
    }

    open spec fn from_spec(_e: core::fmt::Error) -> Format {
        Format::StdFmtError
    }
}

} // verus!
