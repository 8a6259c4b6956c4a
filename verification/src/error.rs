//! The errors that domain and email address parsing report, and their
//! mathematical views.
use vstd::prelude::*;

use crate::ip::AddrParseError;

verus! {

/// Represents errors that can occur during domain parsing.
#[derive(Debug, PartialEq, Eq, Clone)]
#[non_exhaustive]
pub enum DomainParseError {
    /// The complete domain name is longer than the maximum allowed length.
    DomainLengthExceeded { length: usize, max_length: usize },
    /// The domain name contains characters that are not allowed.
    InvalidCharacters { character_set: String },
    /// The domain is of a type that the options do not support.
    UnsupportedDomainType,
    /// The address literal between brackets is not an IP address.
    IpParseError(AddrParseError),
    /// A DNS label has more characters than the maximum allowed length.
    DnsLabelTooLong { max_dns_length: usize },
}

/// The view of a [`DomainParseError`]: strings are seen as character sequences.
pub enum DomainErrorView {
    DomainLengthExceeded { length: nat, max_length: nat },
    InvalidCharacters { character_set: Seq<char> },
    UnsupportedDomainType,
    IpParseError(AddrParseError),
    DnsLabelTooLong { max_dns_length: nat },
}

impl View for DomainParseError {
    type V = DomainErrorView;

    open spec fn view(&self) -> DomainErrorView {
        match self {
            DomainParseError::DomainLengthExceeded { length, max_length } => {
                DomainErrorView::DomainLengthExceeded {
                    length: *length as nat,
                    max_length: *max_length as nat,
                }
            },
            DomainParseError::InvalidCharacters { character_set } => {
                DomainErrorView::InvalidCharacters { character_set: character_set@ }
            },
            DomainParseError::UnsupportedDomainType => DomainErrorView::UnsupportedDomainType,
            DomainParseError::IpParseError(e) => DomainErrorView::IpParseError(*e),
            DomainParseError::DnsLabelTooLong { max_dns_length } => {
                DomainErrorView::DnsLabelTooLong { max_dns_length: *max_dns_length as nat }
            },
        }
    }
}

/// Represents errors that can occur during email address parsing.
#[derive(Debug, PartialEq, Eq, Clone)]
#[non_exhaustive]
pub enum EmailParseError {
    /// The display name format is invalid.
    InvalidDisplayFormat,
    /// The email address contains characters that are not allowed.
    InvalidCharacters { character_set: String },
    /// The email address contains an invalid escape sequence.
    InvalidEscapeSequence { sequence: String },
    /// The email address is missing a domain.
    MissingDomain,
    /// The email address is missing a local part.
    MissingLocalPart,
    /// The local part of the email address exceeds the maximum allowed length.
    LocalPartLengthExceeded { length: usize, max_length: usize },
    /// The domain part of the email address fails to parse.
    DomainParseError(DomainParseError),
}

/// The view of an [`EmailParseError`]: strings are seen as character sequences.
pub enum EmailErrorView {
    InvalidDisplayFormat,
    InvalidCharacters { character_set: Seq<char> },
    InvalidEscapeSequence { sequence: Seq<char> },
    MissingDomain,
    MissingLocalPart,
    LocalPartLengthExceeded { length: nat, max_length: nat },
    DomainParseError(DomainErrorView),
}

impl View for EmailParseError {
    type V = EmailErrorView;

    open spec fn view(&self) -> EmailErrorView {
        match self {
            EmailParseError::InvalidDisplayFormat => EmailErrorView::InvalidDisplayFormat,
            EmailParseError::InvalidCharacters { character_set } => {
                EmailErrorView::InvalidCharacters { character_set: character_set@ }
            },
            EmailParseError::InvalidEscapeSequence { sequence } => {
                EmailErrorView::InvalidEscapeSequence { sequence: sequence@ }
            },
            EmailParseError::MissingDomain => EmailErrorView::MissingDomain,
            EmailParseError::MissingLocalPart => EmailErrorView::MissingLocalPart,
            EmailParseError::LocalPartLengthExceeded { length, max_length } => {
                EmailErrorView::LocalPartLengthExceeded {
                    length: *length as nat,
                    max_length: *max_length as nat,
                }
            },
            EmailParseError::DomainParseError(e) => EmailErrorView::DomainParseError(e@),
        }
    }
}

impl From<DomainParseError> for EmailParseError {
    fn from(err: DomainParseError) -> (r: Self) {
        EmailParseError::DomainParseError(err)
    }
}

impl vstd::std_specs::convert::FromSpecImpl<DomainParseError> for EmailParseError {
    open spec fn obeys_from_spec() -> bool {
        true
    }

    open spec fn from_spec(v: DomainParseError) -> Self {
        EmailParseError::DomainParseError(v)
    }
}

} // verus!
