//! Domains: host names, local domains and IP address literals.
use vstd::prelude::*;
use vstd::string::*;

use crate::error::{DomainErrorView, DomainParseError};
use crate::ip::{ip_literal_kind, ip_literal_version, AddrParseError, IpVersion};
use crate::options::{
    clean_range, clean_text, default_domain_options, DomainSupport, DomainValidationOptions,
    TextEncoding,
};
use crate::text::{
    chars_of, is_alnum, is_ascii_alnum, is_beyond_ascii, str_byte_len, sub_vec, utf8_len,
    utf8_len_of,
};

verus! {

/// Represents the kind of a domain: a hostname, a local domain, or an IP address.
#[derive(Debug, Hash, Ord, PartialOrd, Eq, PartialEq, Clone, Copy, Structural)]
#[non_exhaustive]
pub enum DomainType {
    /// The domain is a hostname.
    HostName,
    /// The domain is a local domain.
    LocalDomain,
    /// The domain is an IP address.
    IpAddress,
}

impl DomainType {
    /// The name of the domain type.
    pub fn to_string(&self) -> (r: String)
        ensures
            r@ == match self {
                DomainType::HostName => "HostName"@,
                DomainType::LocalDomain => "LocalDomain"@,
                DomainType::IpAddress => "IpAddress"@,
            },
    {
        match self {
            DomainType::HostName => String::from_str("HostName"),
            DomainType::LocalDomain => String::from_str("LocalDomain"),
            DomainType::IpAddress => String::from_str("IpAddress"),
        }
    }
}

/// Represents a domain name, which can be either a hostname, local domain, or IP address.
#[derive(Debug, Hash, Ord, PartialOrd, Eq, PartialEq, Clone)]
pub struct Domain {
    pub(crate) domain_type: DomainType,
    pub(crate) address: String,
}

/// The view of a [`Domain`]: its type and its address as a character sequence.
pub struct DomainView {
    pub domain_type: DomainType,
    pub address: Seq<char>,
}

impl View for Domain {
    type V = DomainView;

    closed spec fn view(&self) -> DomainView {
        DomainView { domain_type: self.domain_type, address: self.address@ }
    }
}

/// The view of the outcome of a domain parse.
pub open spec fn domain_result_view(r: Result<Domain, DomainParseError>) -> Result<
    DomainView,
    DomainErrorView,
> {
    match r {
        Ok(d) => Ok(d@),
        Err(e) => Err(e@),
    }
}

/// The text that is validated as a domain: `s` trimmed, rid of the allowed
/// comments, and trimmed again.
pub open spec fn normalize_domain_text(s: Seq<char>, o: DomainValidationOptions) -> Seq<char> {
    clean_text(s, o.trim_whitespace, o.comments)
}

/// The characters that a host name may hold besides `.`.
pub open spec fn domain_char_allowed(c: char, encoding: TextEncoding) -> bool {
    ||| c == '-'
    ||| is_ascii_alnum(c)
    ||| (encoding == TextEncoding::Utf8 && is_beyond_ascii(c))
}

/// Checks the characters of a host name `t` from index `k` on. `is_host` tells
/// whether a `.` was seen, and `label_start` is the index at which the current
/// DNS label starts. A character that stands `max_dns_length` characters or
/// more into its label is refused: no label may have more than
/// `max_dns_length` characters. The result tells whether `t` holds a `.`.
pub open spec fn scan_host_name(
    t: Seq<char>,
    k: int,
    is_host: bool,
    label_start: int,
    o: DomainValidationOptions,
) -> Result<bool, DomainErrorView>
    decreases t.len() - k,
{
    if k < 0 || k >= t.len() {
        Ok(is_host)
    } else {
        let c = t[k];
        if c == '.' {
            scan_host_name(t, k + 1, true, k + 1, o)
        } else if !domain_char_allowed(c, o.text_encoding) {
            Err(DomainErrorView::InvalidCharacters { character_set: seq![c] })
        } else if k - label_start >= o.max_dns_length {
            Err(DomainErrorView::DnsLabelTooLong { max_dns_length: o.max_dns_length as nat })
        } else {
            scan_host_name(t, k + 1, is_host, label_start, o)
        }
    }
}

/// The tag that marks an IPv6 address literal.
pub open spec fn ipv6_tag() -> Seq<char> {
    seq!['I', 'P', 'v', '6', ':']
}

/// The outcome of parsing the address literal `t` (which is enclosed in brackets).
pub open spec fn parse_ip_domain_spec(t: Seq<char>, o: DomainValidationOptions) -> Result<
    DomainView,
    DomainErrorView,
> {
    match o.domain_support {
        DomainSupport::HostNameOnly | DomainSupport::LocalAndHostName => Err(
            DomainErrorView::UnsupportedDomainType,
        ),
        _ => {
            let addr = t.subrange(1, t.len() - 1);
            if addr.len() >= 5 && addr.take(5) == ipv6_tag() {
                let stripped = addr.skip(5);
                match ip_literal_kind(stripped) {
                    Some(IpVersion::V6) => Ok(
                        DomainView { domain_type: DomainType::IpAddress, address: stripped },
                    ),
                    Some(IpVersion::V4) => Err(
                        DomainErrorView::InvalidCharacters { character_set: ipv6_tag() },
                    ),
                    None => Err(DomainErrorView::IpParseError(AddrParseError)),
                }
            } else {
                match ip_literal_kind(addr) {
                    Some(_) => Ok(DomainView { domain_type: DomainType::IpAddress, address: addr }),
                    None => Err(DomainErrorView::IpParseError(AddrParseError)),
                }
            }
        },
    }
}

/// The outcome of parsing `s` as a domain with the options `o`.
pub open spec fn parse_domain_spec(s: Seq<char>, o: DomainValidationOptions) -> Result<
    DomainView,
    DomainErrorView,
> {
    let t = normalize_domain_text(s, o);
    if utf8_len(t) > o.max_length {
        Err(
            DomainErrorView::DomainLengthExceeded {
                length: utf8_len(t),
                max_length: o.max_length as nat,
            },
        )
    } else if t.len() > 0 && t.last() == ']' && t[0] == '[' {
        parse_ip_domain_spec(t, o)
    } else {
        match scan_host_name(t, 0, false, 0, o) {
            Err(e) => Err(e),
            Ok(true) => Ok(DomainView { domain_type: DomainType::HostName, address: t }),
            Ok(false) => match o.domain_support {
                DomainSupport::All | DomainSupport::LocalAndHostName => Ok(
                    DomainView { domain_type: DomainType::LocalDomain, address: t },
                ),
                _ => Err(DomainErrorView::UnsupportedDomainType),
            },
        }
    }
}

fn ipv6_tag_string() -> (s: String)
    ensures
        s@ == ipv6_tag(),
{
    let s = String::from_str("IPv6:");
    proof {
        reveal_strlit("IPv6:");
    }
    s
}

impl Domain {
    /// Builds a domain from its parts as they are, without validating them
    /// (for instance to restore one that was stored).
    pub fn from_parts(domain_type: DomainType, address: String) -> (r: Self)
        ensures
            r@ == (DomainView { domain_type: domain_type, address: address@ }),
    {
        Domain { domain_type, address }
    }

    ///
    /// Gets the domain type.
    ///
    /// # Examples
    ///
    /// ```
    /// use email_address_validator::{Domain, DomainType};
    /// use std::error::Error;
    /// use std::str::FromStr;
    ///
    /// fn main() -> Result<(), Box<dyn Error>> {
    ///     let email = Domain::from_str("example.com")?;
    ///     assert_eq!(email.domain_type(), &DomainType::HostName);
    ///     Ok(())
    /// }
    /// ```
    #[must_use]
    pub fn domain_type(&self) -> (r: &DomainType)
        ensures
            *r == self@.domain_type,
    {
        &self.domain_type
    }

    ///
    /// Gets the domain address.
    ///
    /// # Examples
    ///
    /// ```
    /// use email_address_validator::Domain;
    /// use std::error::Error;
    /// use std::str::FromStr;
    ///
    /// fn main() -> Result<(), Box<dyn Error>> {
    ///     let email = Domain::from_str("example.com")?;
    ///     assert_eq!(email.address(), "example.com");
    ///     Ok(())
    /// }
    /// ```
    #[must_use]
    pub fn address(&self) -> (r: &str)
        ensures
            r@ == self@.address,
    {
        self.address.as_str()
    }

    ///
    /// Tries to parse a domain from a string.
    ///
    /// # Arguments
    ///
    /// * `str`: The string to parse into a domain
    /// * `option`: Validation options for the domain
    ///
    /// returns: Result<`Domain`, `DomainParseError`> - The parsed domain.
    ///
    /// # Examples
    ///
    /// ```
    /// use email_address_validator::{Domain, DomainType, DomainValidationOptions};
    /// use std::error::Error;
    ///
    /// fn main() -> Result<(), Box<dyn Error>> {
    ///     let domain = Domain::try_parse("test.com", &DomainValidationOptions::default())?;
    ///     assert_eq!(domain.domain_type(), &DomainType::HostName);
    ///     assert_eq!(domain.address(), "test.com");
    ///     Ok(())
    /// }
    /// ```
    ///
    /// # Errors
    ///
    /// Failed to parse the domain. See `DomainParseError` for more details.
    ///
    pub fn try_parse(str: &str, option: &DomainValidationOptions) -> (r: Result<
        Self,
        DomainParseError,
    >)
        ensures
            domain_result_view(r) == parse_domain_spec(str@, *option),
    {
        let cs = chars_of(str);
        let _bytes = str_byte_len(str);
        let (a, b) = clean_range(&cs, option.trim_whitespace, option.comments);
        proof {
            crate::text::lemma_utf8_len_subrange(cs@, a as int, b as int);
        }
        let len = utf8_len_of(&cs, a, b);
        if len > option.max_length {
            return Err(
                DomainParseError::DomainLengthExceeded { length: len, max_length: option.max_length },
            );
        }
        if a < b && cs[b - 1] == ']' && cs[a] == '[' {
            return Self::parse_ip_domain(str, &cs, a, b, option);
        }
        let is_hostname = match Self::scan_host(str, &cs, a, b, option) {
            Ok(h) => h,
            Err(e) => {
                return Err(e);
            },
        };
        let address = str.substring_char(a, b).to_owned();
        if is_hostname {
            return Ok(Domain { domain_type: DomainType::HostName, address });
        }
        match option.domain_support {
            DomainSupport::All | DomainSupport::LocalAndHostName => Ok(
                Domain { domain_type: DomainType::LocalDomain, address },
            ),
            DomainSupport::IpAddressAndHostName | DomainSupport::HostNameOnly => Err(
                DomainParseError::UnsupportedDomainType,
            ),
        }
    }

    /// Checks the characters of the host name `cs[lo..hi]`; tells whether it
    /// holds a `.`.
    fn scan_host(
        str: &str,
        cs: &Vec<char>,
        lo: usize,
        hi: usize,
        option: &DomainValidationOptions,
    ) -> (r: Result<bool, DomainParseError>)
        requires
            cs@ == str@,
            lo <= hi <= cs@.len(),
        ensures
            match r {
                Ok(h) => scan_host_name(cs@.subrange(lo as int, hi as int), 0, false, 0, *option)
                    == Ok::<bool, DomainErrorView>(h),
                Err(e) => scan_host_name(cs@.subrange(lo as int, hi as int), 0, false, 0, *option)
                    == Err::<bool, DomainErrorView>(e@),
            },
    {
        let ghost t = cs@.subrange(lo as int, hi as int);
        let mut is_hostname = false;
        let mut last_dns_label_index: usize = 0;
        let mut k: usize = lo;
        while k < hi
            invariant
                lo <= k <= hi <= cs@.len(),
                cs@ == str@,
                t == cs@.subrange(lo as int, hi as int),
                last_dns_label_index <= k - lo,
                scan_host_name(t, 0, false, 0, *option) == scan_host_name(
                    t,
                    k - lo,
                    is_hostname,
                    last_dns_label_index as int,
                    *option,
                ),
            decreases hi - k,
        {
            let c = cs[k];
            let i = k - lo;
            assert(t[i as int] == c);
            if c == '.' {
                is_hostname = true;
                last_dns_label_index = i + 1;
            } else if !(c == '-' || is_alnum(c) || (option.text_encoding == TextEncoding::Utf8 && c
                > '\u{7f}')) {
                let bad = str.substring_char(k, k + 1).to_owned();
                assert(bad@ =~= seq![c]);
                return Err(DomainParseError::InvalidCharacters { character_set: bad });
            } else if i - last_dns_label_index >= option.max_dns_length {
                return Err(
                    DomainParseError::DnsLabelTooLong { max_dns_length: option.max_dns_length },
                );
            }
            k = k + 1;
        }
        Ok(is_hostname)
    }

    /// Parses the address literal `cs[lo..hi]`, which is enclosed in brackets.
    fn parse_ip_domain(
        str: &str,
        cs: &Vec<char>,
        lo: usize,
        hi: usize,
        option: &DomainValidationOptions,
    ) -> (r: Result<Self, DomainParseError>)
        requires
            cs@ == str@,
            lo + 2 <= hi <= cs@.len(),
        ensures
            domain_result_view(r) == parse_ip_domain_spec(
                cs@.subrange(lo as int, hi as int),
                *option,
            ),
    {
        let ghost t = cs@.subrange(lo as int, hi as int);
        let ghost addr = t.subrange(1, t.len() - 1);
        assert(addr =~= cs@.subrange(lo + 1, hi - 1));
        match option.domain_support {
            DomainSupport::HostNameOnly | DomainSupport::LocalAndHostName => {
                return Err(DomainParseError::UnsupportedDomainType);
            },
            DomainSupport::IpAddressAndHostName | DomainSupport::All => {},
        }
        let start = lo + 1;
        let end = hi - 1;
        let tagged = end - start >= 5 && cs[start] == 'I' && cs[start + 1] == 'P' && cs[start
            + 2] == 'v' && cs[start + 3] == '6' && cs[start + 4] == ':';
        proof {
            if tagged {
                assert(addr.take(5) =~= ipv6_tag());
            } else if addr.len() >= 5 && addr.take(5) == ipv6_tag() {
                assert(addr.take(5)[0] == 'I');
                assert(addr.take(5)[1] == 'P');
                assert(addr.take(5)[2] == 'v');
                assert(addr.take(5)[3] == '6');
                assert(addr.take(5)[4] == ':');
                assert(false);
            }
        }
        if tagged {
            let stripped = sub_vec(cs, start + 5, end);
            assert(stripped@ =~= addr.skip(5));
            match ip_literal_version(&stripped) {
                Some(IpVersion::V6) => Ok(
                    Domain {
                        domain_type: DomainType::IpAddress,
                        address: str.substring_char(start + 5, end).to_owned(),
                    },
                ),
                Some(IpVersion::V4) => Err(
                    DomainParseError::InvalidCharacters { character_set: ipv6_tag_string() },
                ),
                None => Err(DomainParseError::IpParseError(AddrParseError)),
            }
        } else {
            let literal = sub_vec(cs, start, end);
            match ip_literal_version(&literal) {
                Some(_) => Ok(
                    Domain {
                        domain_type: DomainType::IpAddress,
                        address: str.substring_char(start, end).to_owned(),
                    },
                ),
                None => Err(DomainParseError::IpParseError(AddrParseError)),
            }
        }
    }

    /// The domain as it is written in an email address: IP addresses are
    /// enclosed in brackets.
    pub fn to_string(&self) -> (r: String)
        ensures
            r@ == domain_text(self@),
    {
        match self.domain_type {
            DomainType::HostName | DomainType::LocalDomain => self.address.clone(),
            DomainType::IpAddress => {
                let mut s = String::from_str("[");
                s.append(self.address.as_str());
                s.append("]");
                proof {
                    reveal_strlit("[");
                    reveal_strlit("]");
                }
                s
            },
        }
    }
}

/// How a domain is written in an email address.
pub open spec fn domain_text(d: DomainView) -> Seq<char> {
    match d.domain_type {
        DomainType::IpAddress => seq!['['] + d.address + seq![']'],
        _ => d.address,
    }
}

impl core::str::FromStr for Domain {
    type Err = DomainParseError;

    fn from_str(s: &str) -> (r: Result<Self, Self::Err>)
        ensures
            domain_result_view(r) == parse_domain_spec(s@, default_domain_options()),
    {
        Self::try_parse(s, &DomainValidationOptions::new())
    }
}

/// A domain parsed from a text with the default options, described by its
/// view; the conversion's exact outcome is stated by its own `ensures`.
pub open spec fn default_domain_parse(s: Seq<char>) -> Result<Domain, DomainParseError> {
    match parse_domain_spec(s, default_domain_options()) {
        Ok(d) => Ok(choose|x: Domain| x@ == d),
        Err(e) => Err(choose|x: DomainParseError| x@ == e),
    }
}

impl<'a> vstd::std_specs::convert::TryFromSpecImpl<&'a str> for Domain {
    open spec fn obeys_try_from_spec() -> bool {
        false
    }

    open spec fn try_from_spec(v: &'a str) -> Result<Self, DomainParseError> {
        default_domain_parse(v@)
    }
}

impl vstd::std_specs::convert::TryFromSpecImpl<String> for Domain {
    open spec fn obeys_try_from_spec() -> bool {
        false
    }

    open spec fn try_from_spec(v: String) -> Result<Self, DomainParseError> {
        default_domain_parse(v@)
    }
}

impl<'a> TryFrom<&'a str> for Domain {
    type Error = DomainParseError;

    fn try_from(value: &'a str) -> (r: Result<Self, Self::Error>)
        ensures
            domain_result_view(r) == parse_domain_spec(value@, default_domain_options()),
    {
        Self::try_parse(value, &DomainValidationOptions::new())
    }
}

impl TryFrom<String> for Domain {
    type Error = DomainParseError;

    fn try_from(value: String) -> (r: Result<Self, Self::Error>)
        ensures
            domain_result_view(r) == parse_domain_spec(value@, default_domain_options()),
    {
        Self::try_parse(value.as_str(), &DomainValidationOptions::new())
    }
}

} // verus!
