//! The errors of the relay and how they read.

use vstd::prelude::*;

verus! {

/// Everything that can go wrong while the relay starts or runs.
///
/// The variants that stem from the operating system or from the configuration
/// parser carry the text with which the cause describes itself.
#[derive(Debug, Clone, PartialEq, Eq)]
pub enum RelayError {
    Io(String),
    Config(String),
    ConfigParse(String),
    Protocol(String),
    OpenIpmi(String),
    BmcWorkerUnavailable,
}

/// A [`RelayError`] with its text as a sequence of characters.
#[verifier::ext_equal]
pub enum ErrorModel {
    Io(Seq<char>),
    Config(Seq<char>),
    ConfigParse(Seq<char>),
    Protocol(Seq<char>),
    OpenIpmi(Seq<char>),
    BmcWorkerUnavailable,
}

impl View for RelayError {
    type V = ErrorModel;

    open spec fn view(&self) -> ErrorModel {
        match self {
            RelayError::Io(text) => ErrorModel::Io(text@),
            RelayError::Config(text) => ErrorModel::Config(text@),
            RelayError::ConfigParse(text) => ErrorModel::ConfigParse(text@),
            RelayError::Protocol(text) => ErrorModel::Protocol(text@),
            RelayError::OpenIpmi(text) => ErrorModel::OpenIpmi(text@),
            RelayError::BmcWorkerUnavailable => ErrorModel::BmcWorkerUnavailable,
        }
    }
}

impl ErrorModel {
    /// The line that a user reads: the kind of the error, then its cause.
    pub open spec fn text(self) -> Seq<char> {
        match self {
            ErrorModel::Io(cause) => "I/O error: "@ + cause,
            ErrorModel::Config(cause) => "configuration error: "@ + cause,
            ErrorModel::ConfigParse(cause) => "configuration parse error: "@ + cause,
            ErrorModel::Protocol(cause) => "protocol error: "@ + cause,
            ErrorModel::OpenIpmi(cause) => "OpenIPMI error: "@ + cause,
            ErrorModel::BmcWorkerUnavailable => "BMC worker is unavailable"@,
        }
    }
}

impl RelayError {
    /// Returns the line that describes this error to a user.
    pub fn message(&self) -> (line: String)
        ensures
            line@ == self@.text(),
    {
        match self {
            RelayError::Io(cause) => "I/O error: ".to_owned().concat(cause.as_str()),
            RelayError::Config(cause) => "configuration error: ".to_owned().concat(cause.as_str()),
            RelayError::ConfigParse(cause) => {
                "configuration parse error: ".to_owned().concat(cause.as_str())
            },
            RelayError::Protocol(cause) => "protocol error: ".to_owned().concat(cause.as_str()),
            RelayError::OpenIpmi(cause) => "OpenIPMI error: ".to_owned().concat(cause.as_str()),
            RelayError::BmcWorkerUnavailable => "BMC worker is unavailable".to_owned(),
        }
    }
}

/// An error with the text `cause` has a model of its own kind with that text,
/// and reads as the name of its kind, a colon, a blank and the cause.
pub proof fn law_errors_name_kind_and_cause(cause: String)
    ensures
        RelayError::Io(cause)@ == ErrorModel::Io(cause@),
        RelayError::Config(cause)@ == ErrorModel::Config(cause@),
        RelayError::ConfigParse(cause)@ == ErrorModel::ConfigParse(cause@),
        RelayError::Protocol(cause)@ == ErrorModel::Protocol(cause@),
        RelayError::OpenIpmi(cause)@ == ErrorModel::OpenIpmi(cause@),
        RelayError::BmcWorkerUnavailable@ == ErrorModel::BmcWorkerUnavailable,
        RelayError::Io(cause)@.text() == "I/O error: "@ + cause@,
        RelayError::Config(cause)@.text() == "configuration error: "@ + cause@,
        RelayError::ConfigParse(cause)@.text() == "configuration parse error: "@ + cause@,
        RelayError::Protocol(cause)@.text() == "protocol error: "@ + cause@,
        RelayError::OpenIpmi(cause)@.text() == "OpenIPMI error: "@ + cause@,
        RelayError::BmcWorkerUnavailable@.text() == "BMC worker is unavailable"@,
{
}

} // verus!
