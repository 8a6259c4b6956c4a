//! Validation options for email addresses and domains, and their builders.
use vstd::prelude::*;
use vstd::string::*;

use crate::text::{
    chars_of, find_first, find_last, skip_leading_whitespace, skip_trailing_whitespace,
    trim_chars, trim_end_chars, trim_start_chars,
};

verus! {

/// Represents the text encoding format for email addresses.
#[derive(Debug, Hash, Ord, PartialOrd, Eq, PartialEq, Clone, Copy, Structural)]
#[non_exhaustive]
pub enum TextEncoding {
    /// ASCII encoding format.
    Ascii,
    /// UTF-8 encoding format.
    Utf8,
}

impl Default for TextEncoding {
    fn default() -> (r: Self)
        ensures
            r == TextEncoding::Utf8,
    {
        TextEncoding::Utf8
    }
}

impl TextEncoding {
    /// The name of the encoding.
    pub fn to_string(&self) -> (r: String)
        ensures
            r@ == match self {
                TextEncoding::Ascii => "Ascii"@,
                TextEncoding::Utf8 => "Utf8"@,
            },
    {
        match self {
            TextEncoding::Ascii => String::from_str("Ascii"),
            TextEncoding::Utf8 => String::from_str("Utf8"),
        }
    }
}

/// Represents the comment support configuration for email addresses.
#[derive(Debug, Hash, Ord, PartialOrd, Eq, PartialEq, Clone, Copy, Structural)]
#[non_exhaustive]
pub enum CommentSupport {
    /// Comments are disallowed.
    Disallowed,
    /// Comments are allowed only at the end of the string.
    Trailing,
    /// Comments are allowed at the beginning and end of the string: a trailing
    /// comment is removed first, then a leading one.
    Leading,
    /// Comments are allowed at the beginning and end of the string: a trailing
    /// comment is removed first, then a leading one, so a string that is a
    /// single parenthesized group is taken as a trailing comment.
    LeadingAndTrailing,
}

impl Default for CommentSupport {
    fn default() -> (r: Self)
        ensures
            r == CommentSupport::Disallowed,
    {
        CommentSupport::Disallowed
    }
}

/// `s` without a trailing comment: when `s` ends with `)`, everything from the
/// last `(` on is dropped (nothing is dropped when there is no `(`).
pub open spec fn strip_trailing_comment(s: Seq<char>) -> Seq<char> {
    if s.len() > 0 && s.last() == ')' {
        match s.index_of_last('(') {
            Some(p) => s.take(p),
            None => s,
        }
    } else {
        s
    }
}

/// `s` without a leading comment: when `s` starts with `(`, everything up to
/// and including the first `)` is dropped (nothing is dropped when there is no `)`).
pub open spec fn strip_leading_comment(s: Seq<char>) -> Seq<char> {
    if s.len() > 0 && s[0] == '(' {
        match s.index_of_first(')') {
            Some(p) => s.skip(p + 1),
            None => s,
        }
    } else {
        s
    }
}

impl CommentSupport {
    /// What removing the comments that this setting allows leaves of `s`.
    pub open spec fn spec_trim(self, s: Seq<char>) -> Seq<char> {
        match self {
            CommentSupport::Disallowed => s,
            CommentSupport::Trailing => strip_trailing_comment(s),
            CommentSupport::Leading => strip_leading_comment(strip_trailing_comment(s)),
            CommentSupport::LeadingAndTrailing => strip_leading_comment(
                strip_trailing_comment(s),
            ),
        }
    }

    /// The range of `cs[lo..hi]` that is left once the allowed comments are removed.
    pub(crate) fn trim_range(self, cs: &Vec<char>, lo: usize, hi: usize) -> (r: (usize, usize))
        requires
            lo <= hi <= cs@.len(),
        ensures
            lo <= r.0 <= r.1 <= hi,
            cs@.subrange(r.0 as int, r.1 as int) == self.spec_trim(
                cs@.subrange(lo as int, hi as int),
            ),
    {
        match self {
            CommentSupport::Disallowed => (lo, hi),
            CommentSupport::Trailing => trailing_comment_range(cs, lo, hi),
            CommentSupport::Leading | CommentSupport::LeadingAndTrailing => {
                let (a, b) = trailing_comment_range(cs, lo, hi);
                leading_comment_range(cs, a, b)
            },
        }
    }

    /// Removes the comments that this setting allows from `s`.
    pub(crate) fn trim(self, s: &str) -> (r: &str)
        ensures
            r@ == self.spec_trim(s@),
    {
        let cs = chars_of(s);
        let (a, b) = self.trim_range(&cs, 0, cs.len());
        assert(cs@.subrange(0, cs@.len() as int) =~= cs@);
        s.substring_char(a, b)
    }

    /// The name of the setting.
    pub fn to_string(&self) -> (r: String)
        ensures
            r@ == match self {
                CommentSupport::Disallowed => "Disallowed"@,
                CommentSupport::Trailing => "Trailing"@,
                CommentSupport::Leading => "Leading"@,
                CommentSupport::LeadingAndTrailing => "LeadingAndTrailing"@,
            },
    {
        match self {
            CommentSupport::Disallowed => String::from_str("Disallowed"),
            CommentSupport::Trailing => String::from_str("Trailing"),
            CommentSupport::Leading => String::from_str("Leading"),
            CommentSupport::LeadingAndTrailing => String::from_str("LeadingAndTrailing"),
        }
    }
}

fn trailing_comment_range(cs: &Vec<char>, lo: usize, hi: usize) -> (r: (usize, usize))
    requires
        lo <= hi <= cs@.len(),
    ensures
        lo <= r.0 <= r.1 <= hi,
        cs@.subrange(r.0 as int, r.1 as int) == strip_trailing_comment(
            cs@.subrange(lo as int, hi as int),
        ),
{
    let ghost sub = cs@.subrange(lo as int, hi as int);
    if lo < hi && cs[hi - 1] == ')' {
        assert(sub.last() == ')');
        match find_last(cs, lo, hi, '(') {
            Some(p) => {
                proof {
                    sub.index_of_last_ensures('(');
                }
                assert(cs@.subrange(lo as int, lo + p) =~= sub.take(p as int));
                (lo, lo + p)
            },
            None => (lo, hi),
        }
    } else {
        (lo, hi)
    }
}

fn leading_comment_range(cs: &Vec<char>, lo: usize, hi: usize) -> (r: (usize, usize))
    requires
        lo <= hi <= cs@.len(),
    ensures
        lo <= r.0 <= r.1 <= hi,
        cs@.subrange(r.0 as int, r.1 as int) == strip_leading_comment(
            cs@.subrange(lo as int, hi as int),
        ),
{
    let ghost sub = cs@.subrange(lo as int, hi as int);
    if lo < hi && cs[lo] == '(' {
        assert(sub[0] == '(');
        match find_first(cs, lo, hi, ')') {
            Some(p) => {
                proof {
                    sub.index_of_first_ensures(')');
                }
                assert(cs@.subrange(lo + p + 1, hi as int) =~= sub.skip(p + 1));
                (lo + p + 1, hi)
            },
            None => (lo, hi),
        }
    } else {
        (lo, hi)
    }
}

/// Represents the display name support for email addresses.
#[derive(Debug, Hash, Ord, PartialOrd, Eq, PartialEq, Clone, Copy, Structural)]
#[non_exhaustive]
pub enum DisplayNameSupport {
    /// Display names are allowed.
    Allowed,
    /// Display names are disallowed.
    Disallowed,
}

impl Default for DisplayNameSupport {
    fn default() -> (r: Self)
        ensures
            r == DisplayNameSupport::Allowed,
    {
        DisplayNameSupport::Allowed
    }
}

impl DisplayNameSupport {
    /// The name of the setting.
    pub fn to_string(&self) -> (r: String)
        ensures
            r@ == match self {
                DisplayNameSupport::Allowed => "Allowed"@,
                DisplayNameSupport::Disallowed => "Disallowed"@,
            },
    {
        match self {
            DisplayNameSupport::Allowed => String::from_str("Allowed"),
            DisplayNameSupport::Disallowed => String::from_str("Disallowed"),
        }
    }
}

/// Represents the trim whitespace configuration for email addresses.
#[derive(Debug, Hash, Ord, PartialOrd, Eq, PartialEq, Clone, Copy, Structural)]
#[non_exhaustive]
pub enum TrimWhitespace {
    /// No whitespace trimming is done.
    NoTrim,
    /// Whitespace is trimmed from the start of the string.
    Start,
    /// Whitespace is trimmed from the end of the string.
    End,
    /// Whitespace is trimmed from both the start and end of the string.
    Both,
}

impl Default for TrimWhitespace {
    fn default() -> (r: Self)
        ensures
            r == TrimWhitespace::Both,
    {
        TrimWhitespace::Both
    }
}

impl TrimWhitespace {
    /// What trimming `s` in this mode leaves.
    pub open spec fn spec_trim(self, s: Seq<char>) -> Seq<char> {
        match self {
            TrimWhitespace::NoTrim => s,
            TrimWhitespace::Start => trim_start_chars(s),
            TrimWhitespace::End => trim_end_chars(s),
            TrimWhitespace::Both => trim_chars(s),
        }
    }

    /// The range of `cs[lo..hi]` that is left once trimmed in this mode.
    pub(crate) fn trim_range(self, cs: &Vec<char>, lo: usize, hi: usize) -> (r: (usize, usize))
        requires
            lo <= hi <= cs@.len(),
        ensures
            lo <= r.0 <= r.1 <= hi,
            cs@.subrange(r.0 as int, r.1 as int) == self.spec_trim(
                cs@.subrange(lo as int, hi as int),
            ),
    {
        match self {
            TrimWhitespace::NoTrim => (lo, hi),
            TrimWhitespace::Start => (skip_leading_whitespace(cs, lo, hi), hi),
            TrimWhitespace::End => (lo, skip_trailing_whitespace(cs, lo, hi)),
            TrimWhitespace::Both => {
                let a = skip_leading_whitespace(cs, lo, hi);
                let b = skip_trailing_whitespace(cs, a, hi);
                (a, b)
            },
        }
    }

    ///
    /// Trims whitespace from the given string based on the configured trimming mode.
    ///
    /// # Arguments
    ///
    /// * `s`: The input string to trim whitespace from.
    ///
    /// returns: &'a str - The trimmed string.
    ///
    /// # Examples
    ///
    /// ```
    /// use email_address_validator::TrimWhitespace;
    ///
    /// let trimmed = TrimWhitespace::Both.trim_string("   Hello World!   ");
    /// assert_eq!(trimmed, "Hello World!");
    /// ```
    #[must_use]
    pub fn trim_string<'a>(&self, s: &'a str) -> (r: &'a str)
        ensures
            r@ == self.spec_trim(s@),
    {
        let cs = chars_of(s);
        let (a, b) = self.trim_range(&cs, 0, cs.len());
        assert(cs@.subrange(0, cs@.len() as int) =~= cs@);
        s.substring_char(a, b)
    }

    /// The name of the mode.
    pub fn to_string(&self) -> (r: String)
        ensures
            r@ == match self {
                TrimWhitespace::NoTrim => "None"@,
                TrimWhitespace::Start => "Start"@,
                TrimWhitespace::End => "End"@,
                TrimWhitespace::Both => "Both"@,
            },
    {
        match self {
            TrimWhitespace::NoTrim => String::from_str("None"),
            TrimWhitespace::Start => String::from_str("Start"),
            TrimWhitespace::End => String::from_str("End"),
            TrimWhitespace::Both => String::from_str("Both"),
        }
    }
}

/// The text that is validated once `s` is trimmed, rid of the allowed
/// comments, and trimmed again.
#[verifier::opaque]
pub open spec fn clean_text(s: Seq<char>, trim: TrimWhitespace, comments: CommentSupport) -> Seq<
    char,
> {
    trim.spec_trim(comments.spec_trim(trim.spec_trim(s)))
}

/// The range of `cs` that `clean_text` leaves.
pub(crate) fn clean_range(cs: &Vec<char>, trim: TrimWhitespace, comments: CommentSupport) -> (r: (
    usize,
    usize,
))
    ensures
        r.0 <= r.1 <= cs@.len(),
        cs@.subrange(r.0 as int, r.1 as int) == clean_text(cs@, trim, comments),
{
    let n = cs.len();
    let (a0, b0) = trim.trim_range(cs, 0, n);
    let (a1, b1) = comments.trim_range(cs, a0, b0);
    let (a, b) = trim.trim_range(cs, a1, b1);
    assert(cs@.subrange(0, n as int) =~= cs@);
    proof {
        reveal(clean_text);
    }
    (a, b)
}

/// Represents the quoted support configuration for email addresses.
#[derive(Debug, Hash, Ord, PartialOrd, Eq, PartialEq, Clone, Copy, Structural)]
#[non_exhaustive]
pub enum QuotedSupport {
    /// Quoted strings are allowed.
    Allowed,
    /// Quoted strings are disallowed.
    Disallowed,
}

impl Default for QuotedSupport {
    fn default() -> (r: Self)
        ensures
            r == QuotedSupport::Allowed,
    {
        QuotedSupport::Allowed
    }
}

/// Represents the domain support configuration for email addresses.
#[derive(Debug, Hash, Ord, PartialOrd, Eq, PartialEq, Clone, Copy, Structural)]
#[non_exhaustive]
pub enum DomainSupport {
    /// Only Host names are supported.
    HostNameOnly,
    /// Only local domains and host names are supported.
    LocalAndHostName,
    /// Both IP addresses and host names are supported.
    IpAddressAndHostName,
    /// All domain types are supported.
    All,
}

impl Default for DomainSupport {
    fn default() -> (r: Self)
        ensures
            r == DomainSupport::IpAddressAndHostName,
    {
        DomainSupport::IpAddressAndHostName
    }
}

/// Represents the domain validation options for email addresses.
#[derive(Debug, Hash, Ord, PartialOrd, Eq, PartialEq, Clone, Copy, Structural)]
#[non_exhaustive]
pub struct DomainValidationOptions {
    pub domain_support: DomainSupport,
    pub text_encoding: TextEncoding,
    pub comments: CommentSupport,
    pub trim_whitespace: TrimWhitespace,
    pub max_length: usize,
    pub max_dns_length: usize,
}

/// The default domain validation options.
pub open spec fn default_domain_options() -> DomainValidationOptions {
    DomainValidationOptions {
        domain_support: DomainSupport::IpAddressAndHostName,
        text_encoding: TextEncoding::Utf8,
        comments: CommentSupport::Disallowed,
        trim_whitespace: TrimWhitespace::Both,
        max_length: 255,
        max_dns_length: 63,
    }
}

impl DomainValidationOptions {
    /// Creates a new instance of `DomainValidationOptions` with default settings.
    #[must_use]
    pub fn new() -> (r: Self)
        ensures
            r == default_domain_options(),
    {
        DomainValidationOptions {
            domain_support: DomainSupport::IpAddressAndHostName,
            text_encoding: TextEncoding::Utf8,
            comments: CommentSupport::Disallowed,
            trim_whitespace: TrimWhitespace::Both,
            max_length: 255,
            max_dns_length: 63,
        }
    }
}

impl Default for DomainValidationOptions {
    fn default() -> (r: Self)
        ensures
            r == default_domain_options(),
    {
        Self::new()
    }
}

/// Represents the domain validation options for email addresses.
#[derive(Hash, Ord, PartialOrd, Eq, PartialEq, Clone, Debug)]
#[non_exhaustive]
pub struct DomainValidationOptionsBuilder {
    options: DomainValidationOptions,
}

impl View for DomainValidationOptionsBuilder {
    type V = DomainValidationOptions;

    /// The options that `build` returns.
    closed spec fn view(&self) -> DomainValidationOptions {
        self.options
    }
}

impl Default for DomainValidationOptionsBuilder {
    fn default() -> (r: Self)
        ensures
            r@ == default_domain_options(),
    {
        Self::new()
    }
}

impl DomainValidationOptionsBuilder {
    /// Creates a new instance of `DomainValidationOptionsBuilder` with default settings.
    #[must_use]
    pub fn new() -> (r: Self)
        ensures
            r@ == default_domain_options(),
    {
        DomainValidationOptionsBuilder { options: DomainValidationOptions::new() }
    }

    ///
    /// Sets the text encoding for domain validation.
    ///
    /// # Examples
    ///
    /// ```
    /// use email_address_validator::{DomainValidationOptionsBuilder, TextEncoding};
    ///
    /// let options = DomainValidationOptionsBuilder::new()
    ///     .with_text_encoding(TextEncoding::Ascii)
    ///     .build();
    /// ```
    #[must_use]
    pub fn with_text_encoding(self, encoding: TextEncoding) -> (r: Self)
        ensures
            r@ == (DomainValidationOptions { text_encoding: encoding, ..self@ }),
    {
        let mut b = self;
        b.options.text_encoding = encoding;
        b
    }

    ///
    /// Sets the domain support for domain validation.
    ///
    /// # Examples
    ///
    /// ```
    /// use email_address_validator::{DomainSupport, DomainValidationOptionsBuilder};
    ///
    /// let options = DomainValidationOptionsBuilder::new()
    ///     .with_domain_support(DomainSupport::HostNameOnly)
    ///     .build();
    /// ```
    #[must_use]
    pub fn with_domain_support(self, domain_support: DomainSupport) -> (r: Self)
        ensures
            r@ == (DomainValidationOptions { domain_support: domain_support, ..self@ }),
    {
        let mut b = self;
        b.options.domain_support = domain_support;
        b
    }

    ///
    /// Sets the trim whitespace option for domain validation.
    ///
    /// # Examples
    ///
    /// ```
    /// use email_address_validator::{DomainValidationOptionsBuilder, TrimWhitespace};
    ///
    /// let options = DomainValidationOptionsBuilder::new()
    ///     .with_trim_whitespace(TrimWhitespace::Both)
    ///     .build();
    /// ```
    #[must_use]
    pub fn with_trim_whitespace(self, trim_whitespace: TrimWhitespace) -> (r: Self)
        ensures
            r@ == (DomainValidationOptions { trim_whitespace: trim_whitespace, ..self@ }),
    {
        let mut b = self;
        b.options.trim_whitespace = trim_whitespace;
        b
    }

    ///
    /// Sets the maximum length for domain validation.
    ///
    /// # Examples
    ///
    /// ```
    /// use email_address_validator::DomainValidationOptionsBuilder;
    ///
    /// let options = DomainValidationOptionsBuilder::new()
    ///     .with_max_length(100)
    ///     .build();
    /// ```
    #[must_use]
    pub fn with_max_length(self, max_length: usize) -> (r: Self)
        ensures
            r@ == (DomainValidationOptions { max_length: max_length, ..self@ }),
    {
        let mut b = self;
        b.options.max_length = max_length;
        b
    }

    ///
    /// Sets the maximum length for dns
    ///
    /// # Examples
    ///
    /// ```
    /// use email_address_validator::DomainValidationOptionsBuilder;
    ///
    /// let options = DomainValidationOptionsBuilder::new()
    ///     .with_max_dns_length(100)
    ///     .build();
    /// ```
    #[must_use]
    pub fn with_max_dns_length(self, max_dns_length: usize) -> (r: Self)
        ensures
            r@ == (DomainValidationOptions { max_dns_length: max_dns_length, ..self@ }),
    {
        let mut b = self;
        b.options.max_dns_length = max_dns_length;
        b
    }

    ///
    /// Builds the `DomainValidationOptions` instance with the specified settings.
    ///
    /// # Examples
    ///
    /// ```
    /// use email_address_validator::DomainValidationOptionsBuilder;
    ///
    /// let options = DomainValidationOptionsBuilder::default()
    ///     .build();
    /// ```
    #[must_use]
    pub fn build(self) -> (r: DomainValidationOptions)
        ensures
            r == self@,
    {
        self.options
    }
}

/// Represents the local part validation options for email addresses.
#[derive(Debug, Hash, Ord, PartialOrd, Eq, PartialEq, Clone, Copy, Structural)]
#[non_exhaustive]
pub struct LocalPartValidationOptions {
    pub text_encoding: TextEncoding,
    pub quoted_support: QuotedSupport,
    pub comments: CommentSupport,
    pub trim_whitespace: TrimWhitespace,
    pub max_length: usize,
}

/// The default local part validation options.
pub open spec fn default_local_part_options() -> LocalPartValidationOptions {
    LocalPartValidationOptions {
        text_encoding: TextEncoding::Utf8,
        quoted_support: QuotedSupport::Allowed,
        comments: CommentSupport::Disallowed,
        trim_whitespace: TrimWhitespace::Both,
        max_length: 64,
    }
}

impl LocalPartValidationOptions {
    /// Creates a new instance of `LocalPartValidationOptions` with default settings.
    #[must_use]
    pub fn new() -> (r: Self)
        ensures
            r == default_local_part_options(),
    {
        LocalPartValidationOptions {
            text_encoding: TextEncoding::Utf8,
            quoted_support: QuotedSupport::Allowed,
            comments: CommentSupport::Disallowed,
            trim_whitespace: TrimWhitespace::Both,
            max_length: 64,
        }
    }
}

impl Default for LocalPartValidationOptions {
    fn default() -> (r: Self)
        ensures
            r == default_local_part_options(),
    {
        Self::new()
    }
}

/// Represents the local part validation options for email addresses.
#[derive(Debug, Hash, Ord, PartialOrd, Eq, PartialEq, Clone, Copy, Structural)]
#[non_exhaustive]
pub struct EmailValidationOptions {
    pub local_part_options: LocalPartValidationOptions,
    pub domain_options: DomainValidationOptions,
    pub display_name_support: DisplayNameSupport,
}

/// The default email validation options.
pub open spec fn default_email_options() -> EmailValidationOptions {
    EmailValidationOptions {
        local_part_options: default_local_part_options(),
        domain_options: default_domain_options(),
        display_name_support: DisplayNameSupport::Allowed,
    }
}

impl EmailValidationOptions {
    /// Creates a new instance of `EmailValidationOptions` with default settings.
    #[must_use]
    pub fn new() -> (r: Self)
        ensures
            r == default_email_options(),
    {
        EmailValidationOptions {
            local_part_options: LocalPartValidationOptions::new(),
            domain_options: DomainValidationOptions::new(),
            display_name_support: DisplayNameSupport::Allowed,
        }
    }
}

impl Default for EmailValidationOptions {
    fn default() -> (r: Self)
        ensures
            r == default_email_options(),
    {
        Self::new()
    }
}

/// Represents the local part validation options for files.
#[derive(Hash, Ord, PartialOrd, Eq, PartialEq, Clone, Debug)]
#[non_exhaustive]
pub struct ValidationOptionsBuilder {
    options: EmailValidationOptions,
}

impl View for ValidationOptionsBuilder {
    type V = EmailValidationOptions;

    /// The options that `build` returns.
    closed spec fn view(&self) -> EmailValidationOptions {
        self.options
    }
}

impl Default for ValidationOptionsBuilder {
    fn default() -> (r: Self)
        ensures
            r@ == default_email_options(),
    {
        Self::new()
    }
}

impl ValidationOptionsBuilder {
    /// Creates a new instance of `ValidationOptionsBuilder` with default settings.
    #[must_use]
    pub fn new() -> (r: Self)
        ensures
            r@ == default_email_options(),
    {
        ValidationOptionsBuilder { options: EmailValidationOptions::new() }
    }

    ///
    /// Sets the domain validation options.
    ///
    /// # Examples
    ///
    /// ```
    /// use email_address_validator::{DomainValidationOptions, ValidationOptionsBuilder};
    ///
    /// let options = ValidationOptionsBuilder::new()
    ///     .with_domain_options(DomainValidationOptions::default())
    ///     .build();
    /// ```
    #[must_use]
    pub fn with_domain_options(self, options: DomainValidationOptions) -> (r: Self)
        ensures
            r@ == (EmailValidationOptions { domain_options: options, ..self@ }),
    {
        let mut b = self;
        b.options.domain_options = options;
        b
    }

    ///
    /// Sets the domain support for domain validation.
    ///
    /// # Examples
    ///
    /// ```
    /// use email_address_validator::{DomainSupport, ValidationOptionsBuilder};
    ///
    /// let options = ValidationOptionsBuilder::new()
    ///     .with_domain_support(DomainSupport::default())
    ///     .build();
    /// ```
    #[must_use]
    pub fn with_domain_support(self, domain_support: DomainSupport) -> (r: Self)
        ensures
            r@ == (EmailValidationOptions {
                domain_options: DomainValidationOptions {
                    domain_support: domain_support,
                    ..self@.domain_options
                },
                ..self@
            }),
    {
        let mut b = self;
        b.options.domain_options.domain_support = domain_support;
        b
    }

    ///
    /// Sets the display name support for email address validation.
    ///
    /// # Examples
    ///
    /// ```
    /// use email_address_validator::{DisplayNameSupport, ValidationOptionsBuilder};
    ///
    /// let options = ValidationOptionsBuilder::new()
    ///     .with_display_name_support(DisplayNameSupport::default())
    ///     .build();
    /// ```
    #[must_use]
    pub fn with_display_name_support(self, display_name_support: DisplayNameSupport) -> (r: Self)
        ensures
            r@ == (EmailValidationOptions { display_name_support: display_name_support, ..self@ }),
    {
        let mut b = self;
        b.options.display_name_support = display_name_support;
        b
    }

    ///
    /// Sets the allow quoted strings option for email address validation.
    ///
    /// # Examples
    ///
    /// ```
    /// use email_address_validator::{ValidationOptionsBuilder, QuotedSupport};
    ///
    /// let options = ValidationOptionsBuilder::new()
    ///     .with_allow_quoted_strings(QuotedSupport::default())
    ///     .build();
    /// ```
    #[must_use]
    pub fn with_allow_quoted_strings(self, quoted_support: QuotedSupport) -> (r: Self)
        ensures
            r@ == (EmailValidationOptions {
                local_part_options: LocalPartValidationOptions {
                    quoted_support: quoted_support,
                    ..self@.local_part_options
                },
                ..self@
            }),
    {
        let mut b = self;
        b.options.local_part_options.quoted_support = quoted_support;
        b
    }

    ///
    /// Sets the comments support for email address validation, for both the
    /// local part and the domain.
    ///
    /// # Examples
    ///
    /// ```
    /// use email_address_validator::{CommentSupport, ValidationOptionsBuilder};
    ///
    /// let options = ValidationOptionsBuilder::new()
    ///     .with_comments(CommentSupport::default())
    ///     .build();
    /// ```
    #[must_use]
    pub fn with_comments(self, comments: CommentSupport) -> (r: Self)
        ensures
            r@ == (EmailValidationOptions {
                local_part_options: LocalPartValidationOptions {
                    comments: comments,
                    ..self@.local_part_options
                },
                domain_options: DomainValidationOptions { comments: comments, ..self@.domain_options },
                ..self@
            }),
    {
        let mut b = self;
        b.options.local_part_options.comments = comments;
        b.options.domain_options.comments = comments;
        b
    }

    ///
    /// Sets the text encoding support for email address validation, for both
    /// the local part and the domain.
    ///
    /// # Examples
    ///
    /// ```
    /// use email_address_validator::{TextEncoding, ValidationOptionsBuilder};
    ///
    /// let options = ValidationOptionsBuilder::new()
    ///     .with_text_encoding(TextEncoding::default())
    ///     .build();
    /// ```
    #[must_use]
    pub fn with_text_encoding(self, encoding: TextEncoding) -> (r: Self)
        ensures
            r@ == (EmailValidationOptions {
                local_part_options: LocalPartValidationOptions {
                    text_encoding: encoding,
                    ..self@.local_part_options
                },
                domain_options: DomainValidationOptions {
                    text_encoding: encoding,
                    ..self@.domain_options
                },
                ..self@
            }),
    {
        let mut b = self;
        b.options.local_part_options.text_encoding = encoding;
        b.options.domain_options.text_encoding = encoding;
        b
    }

    ///
    /// Sets the trim whitespace option for email address validation, for both
    /// the local part and the domain.
    ///
    /// # Examples
    ///
    /// ```
    /// use email_address_validator::{TrimWhitespace, ValidationOptionsBuilder};
    ///
    /// let options = ValidationOptionsBuilder::new()
    ///     .with_trim_whitespace(TrimWhitespace::default())
    ///     .build();
    /// ```
    #[must_use]
    pub fn with_trim_whitespace(self, trim_whitespace: TrimWhitespace) -> (r: Self)
        ensures
            r@ == (EmailValidationOptions {
                local_part_options: LocalPartValidationOptions {
                    trim_whitespace: trim_whitespace,
                    ..self@.local_part_options
                },
                domain_options: DomainValidationOptions {
                    trim_whitespace: trim_whitespace,
                    ..self@.domain_options
                },
                ..self@
            }),
    {
        let mut b = self;
        b.options.local_part_options.trim_whitespace = trim_whitespace;
        b.options.domain_options.trim_whitespace = trim_whitespace;
        b
    }

    ///
    /// Sets the maximum length for the domain part of an email address.
    ///
    /// # Examples
    ///
    /// ```
    /// use email_address_validator::ValidationOptionsBuilder;
    ///
    /// let options = ValidationOptionsBuilder::new()
    ///     .with_max_domain_length(100)
    ///     .build();
    /// ```
    #[must_use]
    pub fn with_max_domain_length(self, length: usize) -> (r: Self)
        ensures
            r@ == (EmailValidationOptions {
                domain_options: DomainValidationOptions { max_length: length, ..self@.domain_options },
                ..self@
            }),
    {
        let mut b = self;
        b.options.domain_options.max_length = length;
        b
    }

    ///
    /// Sets the maximum length for the local part of an email address.
    ///
    /// # Examples
    ///
    /// ```
    /// use email_address_validator::ValidationOptionsBuilder;
    ///
    /// let options = ValidationOptionsBuilder::new()
    ///     .with_max_local_part_length(100)
    ///     .build();
    /// ```
    #[must_use]
    pub fn with_max_local_part_length(self, length: usize) -> (r: Self)
        ensures
            r@ == (EmailValidationOptions {
                local_part_options: LocalPartValidationOptions {
                    max_length: length,
                    ..self@.local_part_options
                },
                ..self@
            }),
    {
        let mut b = self;
        b.options.local_part_options.max_length = length;
        b
    }

    ///
    /// Sets the maximum length for dns labels in the domain part of an email address.
    ///
    /// # Examples
    ///
    /// ```
    /// use email_address_validator::ValidationOptionsBuilder;
    ///
    /// let options = ValidationOptionsBuilder::new()
    ///     .with_max_dns_length(100)
    ///     .build();
    /// ```
    #[must_use]
    pub fn with_max_dns_length(self, length: usize) -> (r: Self)
        ensures
            r@ == (EmailValidationOptions {
                domain_options: DomainValidationOptions {
                    max_dns_length: length,
                    ..self@.domain_options
                },
                ..self@
            }),
    {
        let mut b = self;
        b.options.domain_options.max_dns_length = length;
        b
    }

    ///
    /// Builds the `EmailValidationOptions` instance with the specified settings.
    ///
    /// # Examples
    ///
    /// ```
    /// use email_address_validator::ValidationOptionsBuilder;
    ///
    /// let options = ValidationOptionsBuilder::default()
    ///     .build();
    /// ```
    #[must_use]
    pub fn build(self) -> (r: EmailValidationOptions)
        ensures
            r == self@,
    {
        self.options
    }
}

} // verus!
