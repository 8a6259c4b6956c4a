//! # Email Address Validator
//!
//! Email address validation whose parsers carry machine-checked contracts.
//!
//! The library parses email addresses (with an optional display name, a local
//! part that may be quoted, and a domain that may be a host name, a local
//! domain or an IP address literal) and domains according to configurable
//! options. Each parser is specified by a mathematical function over character
//! sequences (`parse_email_spec`, `parse_domain_spec`, ...) and proved to
//! compute exactly that function; the `laws` module proves properties that
//! hold of every input.
pub mod text;
pub mod options;
pub mod error;
pub mod ip;
pub mod domain;
pub mod email;
pub mod laws;
pub mod acceptance;

pub use domain::{Domain, DomainType};
pub use email::EmailAddress;
pub use error::{DomainParseError, EmailParseError};
pub use ip::{AddrParseError, IpVersion};
pub use options::{
    CommentSupport, DisplayNameSupport, DomainSupport, DomainValidationOptions,
    DomainValidationOptionsBuilder, EmailValidationOptions, LocalPartValidationOptions,
    QuotedSupport, TextEncoding, TrimWhitespace, ValidationOptionsBuilder,
};
