//! The failures that end a refresh of the dashboard.

use vstd::prelude::*;
use vstd::string::StringExecFns;

verus! {

/// Why an update could not be completed. Each of these is fatal for the tick
/// in which it occurs; a rejected log line is not among them.
#[derive(Clone, Debug, PartialEq, Eq)]
pub enum Error {
    /// The session or a channel of it failed.
    Connection(String),
    /// A binary stream ended inside an integer, or before an integer that had
    /// to be there.
    CorruptBinaryStream,
    /// A structured reply did not have the expected shape.
    StructuredDecode(String),
    /// The configuration names something that does not exist.
    Configuration(String),
    /// Counters gave a result outside the range of their type.
    CounterOutOfRange,
    /// A text that had to be an internet address is none.
    InvalidAddress,
    /// The system claims to have started after the present.
    ClockWentBack,
    /// A service was named as built in that is not.
    UnknownBuiltinService(String),
}

/// A failure with its texts as characters.
pub enum ErrorView {
    Connection(Seq<char>),
    CorruptBinaryStream,
    StructuredDecode(Seq<char>),
    Configuration(Seq<char>),
    CounterOutOfRange,
    InvalidAddress,
    ClockWentBack,
    UnknownBuiltinService(Seq<char>),
}

impl View for Error {
    type V = ErrorView;

    open spec fn view(&self) -> ErrorView {
        match self {
            Error::Connection(detail) => ErrorView::Connection(detail@),
            Error::CorruptBinaryStream => ErrorView::CorruptBinaryStream,
            Error::StructuredDecode(detail) => ErrorView::StructuredDecode(detail@),
            Error::Configuration(detail) => ErrorView::Configuration(detail@),
            Error::CounterOutOfRange => ErrorView::CounterOutOfRange,
            Error::InvalidAddress => ErrorView::InvalidAddress,
            Error::ClockWentBack => ErrorView::ClockWentBack,
            Error::UnknownBuiltinService(name) => ErrorView::UnknownBuiltinService(name@),
        }
    }
}

impl Error {
    /// Whether the failure is one of the session, after which the process
    /// cannot go on at all.
    pub fn is_connection(&self) -> (connection: bool)
        ensures
            connection == (self is Connection),
    {
        match self {
            Error::Connection(_) => true,
            _ => false,
        }
    }

    /// A sentence that says what failed.
    pub fn message(&self) -> (text: String)
        ensures
            self matches Error::Connection(detail) ==> text@ == detail@,
            self matches Error::StructuredDecode(detail) ==> text@ == detail@,
            self matches Error::Configuration(detail) ==> text@ == detail@,
            self is CorruptBinaryStream ==> text@ == "binary stream is corrupt"@,
            self is CounterOutOfRange ==> text@ == "counters are out of range"@,
            self is InvalidAddress ==> text@ == "invalid IP address syntax"@,
            self is ClockWentBack ==> text@ == "system started after the present"@,
            self matches Error::UnknownBuiltinService(name) ==> text@ == "\""@ + name@
                + "\" is not recognized as a built-in service"@,
    {
        match self {
            Error::Connection(detail) => detail.clone(),
            Error::StructuredDecode(detail) => detail.clone(),
            Error::Configuration(detail) => detail.clone(),
            Error::CorruptBinaryStream => "binary stream is corrupt".to_owned(),
            Error::CounterOutOfRange => "counters are out of range".to_owned(),
            Error::InvalidAddress => "invalid IP address syntax".to_owned(),
            Error::ClockWentBack => "system started after the present".to_owned(),
            Error::UnknownBuiltinService(name) => {
                let mut text = String::from_str("\"");
                text.append(name.as_str());
                text.append("\" is not recognized as a built-in service");
                text
            },
        }
    }
}

} // verus!
