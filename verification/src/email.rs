//! Email addresses: an optional display name, a local part and a domain.
use vstd::prelude::*;
use vstd::string::*;

use crate::domain::{domain_text, parse_domain_spec, Domain, DomainView};
use crate::error::{EmailErrorView, EmailParseError};
use crate::options::{
    clean_range, clean_text, default_email_options, DisplayNameSupport, EmailValidationOptions,
    LocalPartValidationOptions, QuotedSupport, TextEncoding, TrimWhitespace,
};
use crate::text::{
    chars_of, find_first, is_alnum, is_ascii_alnum, is_beyond_ascii, lemma_utf8_len_subrange,
    str_byte_len, trim_chars, utf8_len, utf8_len_of,
};

verus! {

// ---------------------------------------------------------------------------
// Character classes of the local part
// ---------------------------------------------------------------------------

/// The characters that need quoting in a local part.
pub open spec fn special_chars() -> Seq<char> {
    seq!['"', '(', ')', ',', ':', ';', '<', '>', '@', '[', '\\', ']', ' ']
}

/// Whether `c` is one of [`special_chars`].
pub open spec fn is_special_char(c: char) -> bool {
    ||| c == '"'
    ||| c == '('
    ||| c == ')'
    ||| c == ','
    ||| c == ':'
    ||| c == ';'
    ||| c == '<'
    ||| c == '>'
    ||| c == '@'
    ||| c == '['
    ||| c == '\\'
    ||| c == ']'
    ||| c == ' '
}

/// The printable symbols that a local part may hold without quoting.
pub open spec fn is_local_symbol(c: char) -> bool {
    ||| c == '!'
    ||| c == '#'
    ||| c == '$'
    ||| c == '%'
    ||| c == '&'
    ||| c == '\''
    ||| c == '*'
    ||| c == '+'
    ||| c == '-'
    ||| c == '/'
    ||| c == '='
    ||| c == '?'
    ||| c == '^'
    ||| c == '_'
    ||| c == '`'
    ||| c == '{'
    ||| c == '|'
    ||| c == '}'
    ||| c == '~'
}

/// The characters, other than `.`, that a local part may hold without quoting.
pub open spec fn is_plain_local_char(c: char, encoding: TextEncoding) -> bool {
    ||| is_ascii_alnum(c)
    ||| is_local_symbol(c)
    ||| (encoding == TextEncoding::Utf8 && is_beyond_ascii(c))
}

fn is_special(c: char) -> (b: bool)
    ensures
        b == is_special_char(c),
{
    c == '"' || c == '(' || c == ')' || c == ',' || c == ':' || c == ';' || c == '<' || c == '>'
        || c == '@' || c == '[' || c == '\\' || c == ']' || c == ' '
}

fn is_symbol(c: char) -> (b: bool)
    ensures
        b == is_local_symbol(c),
{
    c == '!' || c == '#' || c == '$' || c == '%' || c == '&' || c == '\'' || c == '*' || c == '+'
        || c == '-' || c == '/' || c == '=' || c == '?' || c == '^' || c == '_' || c == '`' || c
        == '{' || c == '|' || c == '}' || c == '~'
}

fn special_chars_string() -> (s: String)
    ensures
        s@ == special_chars(),
{
    let s = String::from_str("\"(),:;<>@[\\] ");
    proof {
        reveal_strlit("\"(),:;<>@[\\] ");
    }
    assert(s@ =~= special_chars());
    s
}

fn one_dot_string() -> (s: String)
    ensures
        s@ == seq!['.'],
{
    let s = String::from_str(".");
    proof {
        reveal_strlit(".");
    }
    assert(s@ =~= seq!['.']);
    s
}

fn two_dots_string() -> (s: String)
    ensures
        s@ == seq!['.', '.'],
{
    let s = String::from_str("..");
    proof {
        reveal_strlit("..");
    }
    assert(s@ =~= seq!['.', '.']);
    s
}

fn backslash_string() -> (s: String)
    ensures
        s@ == seq!['\\'],
{
    let s = String::from_str("\\");
    proof {
        reveal_strlit("\\");
    }
    assert(s@ =~= seq!['\\']);
    s
}

fn quote_string() -> (s: String)
    ensures
        s@ == seq!['"'],
{
    let s = String::from_str("\"");
    proof {
        reveal_strlit("\"");
    }
    assert(s@ =~= seq!['"']);
    s
}

// ---------------------------------------------------------------------------
// Specification of the local part
// ---------------------------------------------------------------------------

/// The local part once trimmed, rid of the allowed comments, and trimmed again.
pub open spec fn clean_local_part(s: Seq<char>, o: LocalPartValidationOptions) -> Seq<char> {
    clean_text(s, o.trim_whitespace, o.comments)
}

/// Whether the cleaned local part `c` counts as quoted: quoting is allowed and
/// `c` is text between an opening and a closing `"`. A lone `"` is no quoted
/// text, and the character checks refuse it as a special character.
pub open spec fn is_quoted_local_part(c: Seq<char>, o: LocalPartValidationOptions) -> bool {
    &&& o.quoted_support == QuotedSupport::Allowed
    &&& c.len() >= 2
    &&& c[0] == '"'
    &&& c.last() == '"'
}

/// Checks the characters of the local part text `t` (without its quotes when
/// quoted) from index `k` on. `dot` tells whether the previous character was a
/// `.` (or the state after an escape left it so), `esc` whether an escaping
/// backslash is pending. A backslash escapes the character right after it.
/// The result is whether a `.` was the last thing seen.
pub open spec fn scan_local_part(
    t: Seq<char>,
    k: int,
    dot: bool,
    esc: bool,
    quoted: bool,
    encoding: TextEncoding,
) -> Result<bool, EmailErrorView>
    decreases t.len() - k,
{
    if k < 0 || k >= t.len() {
        Ok(dot)
    } else {
        let c = t[k];
        if quoted && c == '\\' {
            let j = k + 1;
            if j >= t.len() {
                Err(EmailErrorView::InvalidEscapeSequence { sequence: seq!['\\'] })
            } else if t[j] != '"' && !(t[j] == '\\' || esc) {
                Err(EmailErrorView::InvalidEscapeSequence { sequence: seq![c, t[j]] })
            } else {
                scan_local_part(t, k + 1, dot, !esc, quoted, encoding)
            }
        } else if c == '.' {
            if !quoted && dot {
                Err(EmailErrorView::InvalidCharacters { character_set: seq!['.', '.'] })
            } else if !quoted && k == 0 {
                Err(EmailErrorView::InvalidCharacters { character_set: seq!['.'] })
            } else {
                scan_local_part(t, k + 1, true, false, quoted, encoding)
            }
        } else if !is_plain_local_char(c, encoding) {
            if is_special_char(c) {
                if !quoted {
                    Err(EmailErrorView::InvalidCharacters { character_set: special_chars() })
                } else if !esc && c == '"' {
                    Err(EmailErrorView::InvalidEscapeSequence { sequence: seq!['"'] })
                } else {
                    scan_local_part(t, k + 1, false, false, quoted, encoding)
                }
            } else {
                Err(EmailErrorView::InvalidCharacters { character_set: seq![c] })
            }
        } else {
            scan_local_part(t, k + 1, false, false, quoted, encoding)
        }
    }
}

/// The outcome of validating `s` as a local part: the cleaned local part, or
/// the error. Nothing left once cleaned means the local part is missing.
pub open spec fn parse_local_part_spec(s: Seq<char>, o: LocalPartValidationOptions) -> Result<
    Seq<char>,
    EmailErrorView,
> {
    let c = clean_local_part(s, o);
    if c.len() == 0 {
        Err(EmailErrorView::MissingLocalPart)
    } else if utf8_len(c) > o.max_length {
        Err(
            EmailErrorView::LocalPartLengthExceeded {
                length: utf8_len(c),
                max_length: o.max_length as nat,
            },
        )
    } else {
        let quoted = is_quoted_local_part(c, o);
        let t = if quoted {
            c.subrange(1, c.len() - 1)
        } else {
            c
        };
        match scan_local_part(t, 0, false, false, quoted, o.text_encoding) {
            Err(e) => Err(e),
            Ok(true) => Err(EmailErrorView::InvalidCharacters { character_set: seq!['.'] }),
            Ok(false) => Ok(c),
        }
    }
}

// ---------------------------------------------------------------------------
// Specification of the whole address
// ---------------------------------------------------------------------------

/// Looks for the `@` that separates the local part from the domain, from the
/// end of `t[..k]` backwards. Parenthesised comments are skipped; a `"` met
/// before the `@` means there is no domain.
pub open spec fn find_at_sign(t: Seq<char>, k: int, in_comment: bool) -> Option<int>
    decreases k,
{
    if k <= 0 || k > t.len() {
        None
    } else {
        let c = t[k - 1];
        if !in_comment && c == ')' {
            find_at_sign(t, k - 1, true)
        } else if in_comment && c == '(' {
            find_at_sign(t, k - 1, false)
        } else if !in_comment && c == '@' {
            Some(k - 1)
        } else if c == '"' {
            None
        } else {
            find_at_sign(t, k - 1, in_comment)
        }
    }
}

/// The index of the `@` that separates the local part from the domain in `t`.
pub open spec fn at_sign_index(t: Seq<char>) -> Option<int> {
    find_at_sign(t, t.len() as int, false)
}

/// The view of an [`EmailAddress`].
pub struct EmailAddressView {
    pub display_name: Option<Seq<char>>,
    pub local_part: Seq<char>,
    pub domain: DomainView,
}

/// Whether `s` is read as `display name <address>`.
pub open spec fn has_display_name_form(s: Seq<char>, o: EmailValidationOptions) -> bool {
    &&& o.display_name_support == DisplayNameSupport::Allowed
    &&& s.len() > 0
    &&& s.last() == '>'
}

/// The part of `s` that holds the address proper, and the display name.
pub open spec fn split_display_name(s: Seq<char>, o: EmailValidationOptions) -> Option<
    (Seq<char>, Option<Seq<char>>),
> {
    if has_display_name_form(s, o) {
        match s.index_of_first('<') {
            Some(p) => Some((s.subrange(p + 1, s.len() - 1), Some(trim_chars(s.take(p))))),
            None => None,
        }
    } else {
        Some((s, None))
    }
}

/// The outcome of parsing `s` as an email address with the options `o`.
pub open spec fn parse_email_spec(s: Seq<char>, o: EmailValidationOptions) -> Result<
    EmailAddressView,
    EmailErrorView,
> {
    match split_display_name(s, o) {
        None => Err(EmailErrorView::InvalidDisplayFormat),
        Some((text, display_name)) => match at_sign_index(text) {
            None => Err(EmailErrorView::MissingDomain),
            Some(j) => if j == 0 {
                Err(EmailErrorView::MissingLocalPart)
            } else {
                match parse_local_part_spec(text.take(j), o.local_part_options) {
                    Err(e) => Err(e),
                    Ok(local_part) => match parse_domain_spec(text.skip(j + 1), o.domain_options) {
                        Err(e) => Err(EmailErrorView::DomainParseError(e)),
                        Ok(domain) => Ok(
                            EmailAddressView {
                                display_name: display_name,
                                local_part: local_part,
                                domain: domain,
                            },
                        ),
                    },
                }
            },
        },
    }
}

/// The view of the outcome of an email address parse.
pub open spec fn email_result_view(r: Result<EmailAddress, EmailParseError>) -> Result<
    EmailAddressView,
    EmailErrorView,
> {
    match r {
        Ok(e) => Ok(e@),
        Err(e) => Err(e@),
    }
}

/// The view of an optional string.
pub open spec fn optional_text(s: Option<String>) -> Option<Seq<char>> {
    match s {
        Some(t) => Some(t@),
        None => None,
    }
}

/// How an email address is written: `local@domain`, or
/// `name <local@domain>` with a display name.
pub open spec fn email_text(e: EmailAddressView) -> Seq<char> {
    let address = e.local_part + seq!['@'] + domain_text(e.domain);
    match e.display_name {
        Some(name) => name + seq![' ', '<'] + address + seq!['>'],
        None => address,
    }
}

/// A struct representing an email address.
#[derive(Debug, Ord, PartialOrd, Eq, PartialEq, Clone)]
#[non_exhaustive]
pub struct EmailAddress {
    display_name: Option<String>,
    domain: Domain,
    local_part: String,
}

impl View for EmailAddress {
    type V = EmailAddressView;

    closed spec fn view(&self) -> EmailAddressView {
        EmailAddressView {
            display_name: optional_text(self.display_name),
            local_part: self.local_part@,
            domain: self.domain@,
        }
    }
}

impl EmailAddress {
    ///
    /// Tries to create a new email address.
    ///
    /// # Arguments
    ///
    /// * `display_name`: The display name of the email address.
    /// * `local_part`: The local part of the email address.
    /// * `domain`: The domain of the email address.
    /// * `options`: The validation options to use.
    ///
    /// returns: Result<`EmailAddress`, `EmailParseError`> - The parsed email address.
    ///
    /// # Errors
    ///
    /// This can fail if the local part cannot be validated with the given options.
    ///
    pub fn try_create(
        display_name: Option<String>,
        local_part: &str,
        domain: Domain,
        options: &EmailValidationOptions,
    ) -> (r: Result<Self, EmailParseError>)
        ensures
            match r {
                Ok(e) => {
                    &&& parse_local_part_spec(local_part@, options.local_part_options) is Ok
                    &&& e@ == EmailAddressView {
                        display_name: optional_text(display_name),
                        local_part: local_part@,
                        domain: domain@,
                    }
                },
                Err(err) => parse_local_part_spec(local_part@, options.local_part_options) == Err::<
                    Seq<char>,
                    EmailErrorView,
                >(err@),
            },
    {
        match Self::parse_local_part(local_part, &options.local_part_options) {
            Ok(_) => Ok(EmailAddress { display_name, domain, local_part: local_part.to_owned() }),
            Err(e) => Err(e),
        }
    }

    /// Builds an email address from its parts as they are, without
    /// validating them (for instance to restore one that was stored).
    pub fn from_parts(display_name: Option<String>, local_part: String, domain: Domain) -> (r: Self)
        ensures
            r@ == (EmailAddressView {
                display_name: optional_text(display_name),
                local_part: local_part@,
                domain: domain@,
            }),
    {
        EmailAddress { display_name, domain, local_part }
    }

    ///
    /// Gets the display name of the email address.
    ///
    #[must_use]
    pub fn display_name(&self) -> (r: Option<&str>)
        ensures
            match r {
                Some(s) => self@.display_name == Some(s@),
                None => self@.display_name is None,
            },
    {
        match &self.display_name {
            Some(s) => Some(s.as_str()),
            None => None,
        }
    }

    ///
    /// Gets the local part of the email address.
    ///
    #[must_use]
    pub fn local_part(&self) -> (r: &str)
        ensures
            r@ == self@.local_part,
    {
        self.local_part.as_str()
    }

    ///
    /// Gets the domain of the email address.
    ///
    #[must_use]
    pub fn domain(&self) -> (r: &Domain)
        ensures
            r@ == self@.domain,
    {
        &self.domain
    }

    ///
    /// Checks if the email address is valid with the default options.
    ///
    /// # Examples
    ///
    /// ```
    /// use email_address_validator::EmailAddress;
    ///
    /// assert_eq!(EmailAddress::is_valid("test.user@example.com"), true);
    /// assert_eq!(EmailAddress::is_valid("test.user"), false);
    /// ```
    #[must_use]
    pub fn is_valid(str: &str) -> (r: bool)
        ensures
            r == parse_email_spec(str@, default_email_options()) is Ok,
    {
        Self::try_parse(str, &EmailValidationOptions::new()).is_ok()
    }

    ///
    /// Tries to parse an email address.
    ///
    /// # Arguments
    ///
    /// * `str`: The email address to parse.
    /// * `option`: The validation options to use.
    ///
    /// returns: Result<`EmailAddress`, `EmailParseError`> - The parsed email address, or an error if it cannot be parsed.
    ///
    /// # Errors
    ///
    /// This can fail if the email address passed cannot be parsed correctly for the given validation options.
    ///
    pub fn try_parse(str: &str, option: &EmailValidationOptions) -> (r: Result<
        Self,
        EmailParseError,
    >)
        ensures
            email_result_view(r) == parse_email_spec(str@, *option),
    {
        let cs = chars_of(str);
        let n = cs.len();
        let mut lo: usize = 0;
        let mut hi: usize = n;
        let mut display_name: Option<String> = None;
        let ghost split = split_display_name(str@, *option);
        if option.display_name_support == DisplayNameSupport::Allowed && n > 0 && cs[n - 1]
            == '>' {
            let display_end = match Self::find_name_end(&cs) {
                Ok(e) => e,
                Err(e) => {
                    return Err(e);
                },
            };
            let (x, y) = TrimWhitespace::Both.trim_range(&cs, 0, display_end - 1);
            display_name = Some(str.substring_char(x, y).to_owned());
            lo = display_end;
            hi = n - 1;
            assert(cs@.take(display_end - 1) =~= cs@.subrange(0, display_end - 1));
        } else {
            assert(cs@.subrange(0, n as int) =~= cs@);
        }
        let ghost text = cs@.subrange(lo as int, hi as int);
        assert(split == Some((text, optional_text(display_name))));
        let j = match Self::find_local_part_end(&cs, lo, hi) {
            Ok(j) => j,
            Err(e) => {
                return Err(e);
            },
        };
        if j == 0 {
            return Err(EmailParseError::MissingLocalPart);
        }
        let local = str.substring_char(lo, lo + j);
        let domain_part = str.substring_char(lo + j + 1, hi);
        assert(local@ =~= text.take(j as int));
        assert(domain_part@ =~= text.skip(j + 1));
        let local_part = match Self::parse_local_part(local, &option.local_part_options) {
            Ok(l) => l,
            Err(e) => {
                return Err(e);
            },
        };
        let domain = match Domain::try_parse(domain_part, &option.domain_options) {
            Ok(d) => d,
            Err(e) => {
                return Err(EmailParseError::DomainParseError(e));
            },
        };
        Ok(EmailAddress { display_name, domain, local_part })
    }

    /// The index just past the first `<` of `cs`.
    fn find_name_end(cs: &Vec<char>) -> (r: Result<usize, EmailParseError>)
        requires
            cs@.len() > 0,
            cs@.last() == '>',
        ensures
            match r {
                Ok(e) => {
                    &&& cs@.index_of_first('<') == Some(e - 1)
                    &&& 1 <= e < cs@.len()
                },
                Err(err) => {
                    &&& cs@.index_of_first('<') is None
                    &&& err == EmailParseError::InvalidDisplayFormat
                },
            },
    {
        let n = cs.len();
        assert(cs@.subrange(0, n as int) =~= cs@);
        match find_first(cs, 0, n, '<') {
            Some(p) => {
                proof {
                    cs@.index_of_first_ensures('<');
                }
                Ok(p + 1)
            },
            None => Err(EmailParseError::InvalidDisplayFormat),
        }
    }

    /// The index, relative to `lo`, of the `@` that separates the local part
    /// from the domain in `cs[lo..hi]`.
    fn find_local_part_end(cs: &Vec<char>, lo: usize, hi: usize) -> (r: Result<
        usize,
        EmailParseError,
    >)
        requires
            lo <= hi <= cs@.len(),
        ensures
            match r {
                Ok(j) => at_sign_index(cs@.subrange(lo as int, hi as int)) == Some(j as int) && j
                    < hi - lo,
                Err(err) => {
                    &&& at_sign_index(cs@.subrange(lo as int, hi as int)) is None
                    &&& err == EmailParseError::MissingDomain
                },
            },
    {
        let ghost t = cs@.subrange(lo as int, hi as int);
        let mut comments_found = false;
        let mut k = hi;
        while k > lo
            invariant
                lo <= k <= hi <= cs@.len(),
                t == cs@.subrange(lo as int, hi as int),
                at_sign_index(t) == find_at_sign(t, k - lo, comments_found),
            decreases k - lo,
        {
            let c = cs[k - 1];
            assert(t[k - 1 - lo] == c);
            if !comments_found && c == ')' {
                comments_found = true;
            } else if comments_found && c == '(' {
                comments_found = false;
            } else if !comments_found && c == '@' {
                return Ok(k - 1 - lo);
            } else if c == '"' {
                return Err(EmailParseError::MissingDomain);
            }
            k = k - 1;
        }
        Err(EmailParseError::MissingDomain)
    }

    /// Validates a local part; returns it cleaned.
    fn parse_local_part(str: &str, option: &LocalPartValidationOptions) -> (r: Result<
        String,
        EmailParseError,
    >)
        ensures
            match r {
                Ok(s) => parse_local_part_spec(str@, *option) == Ok::<Seq<char>, EmailErrorView>(
                    s@,
                ),
                Err(e) => parse_local_part_spec(str@, *option) == Err::<Seq<char>, EmailErrorView>(
                    e@,
                ),
            },
    {
        let cs = chars_of(str);
        let _bytes = str_byte_len(str);
        let (a, b) = clean_range(&cs, option.trim_whitespace, option.comments);
        let ghost c = cs@.subrange(a as int, b as int);
        proof {
            lemma_utf8_len_subrange(cs@, a as int, b as int);
        }
        if a == b {
            return Err(EmailParseError::MissingLocalPart);
        }
        let len = utf8_len_of(&cs, a, b);
        if len > option.max_length {
            return Err(
                EmailParseError::LocalPartLengthExceeded {
                    length: len,
                    max_length: option.max_length,
                },
            );
        }
        let quoted = option.quoted_support == QuotedSupport::Allowed && b - a >= 2 && cs[a] == '"'
            && cs[b - 1] == '"';
        let (ta, tb) = if quoted {
            (a + 1, b - 1)
        } else {
            (a, b)
        };
        assert(cs@.subrange(ta as int, tb as int) == if quoted {
            c.subrange(1, c.len() - 1)
        } else {
            c
        });
        let dot_found = match Self::scan_local(str, &cs, ta, tb, quoted, option.text_encoding) {
            Ok(d) => d,
            Err(e) => {
                return Err(e);
            },
        };
        if dot_found {
            return Err(EmailParseError::InvalidCharacters { character_set: one_dot_string() });
        }
        Ok(str.substring_char(a, b).to_owned())
    }

    /// Checks the characters of the local part text `cs[lo..hi]`.
    fn scan_local(
        str: &str,
        cs: &Vec<char>,
        lo: usize,
        hi: usize,
        quoted: bool,
        encoding: TextEncoding,
    ) -> (r: Result<bool, EmailParseError>)
        requires
            cs@ == str@,
            lo <= hi <= cs@.len(),
        ensures
            match r {
                Ok(d) => scan_local_part(
                    cs@.subrange(lo as int, hi as int),
                    0,
                    false,
                    false,
                    quoted,
                    encoding,
                ) == Ok::<bool, EmailErrorView>(d),
                Err(e) => scan_local_part(
                    cs@.subrange(lo as int, hi as int),
                    0,
                    false,
                    false,
                    quoted,
                    encoding,
                ) == Err::<bool, EmailErrorView>(e@),
            },
    {
        let ghost t = cs@.subrange(lo as int, hi as int);
        let mut dot_found = false;
        let mut escaped = false;
        let mut k: usize = lo;
        while k < hi
            invariant
                lo <= k <= hi <= cs@.len(),
                cs@ == str@,
                t == cs@.subrange(lo as int, hi as int),
                scan_local_part(t, 0, false, false, quoted, encoding) == scan_local_part(
                    t,
                    k - lo,
                    dot_found,
                    escaped,
                    quoted,
                    encoding,
                ),
            decreases hi - k,
        {
            let c = cs[k];
            assert(t[k - lo] == c);
            if quoted && c == '\\' {
                if k + 1 >= hi {
                    return Err(EmailParseError::InvalidEscapeSequence { sequence: backslash_string() });
                }
                let next = cs[k + 1];
                assert(t[k - lo + 1] == next);
                if next != '"' && !(next == '\\' || escaped) {
                    let mut sequence = String::new();
                    sequence.append(str.substring_char(k, k + 1));
                    sequence.append(str.substring_char(k + 1, k + 2));
                    assert(sequence@ =~= seq![c, next]);
                    return Err(EmailParseError::InvalidEscapeSequence { sequence });
                }
                escaped = !escaped;
            } else if c == '.' {
                if !quoted && dot_found {
                    return Err(EmailParseError::InvalidCharacters { character_set: two_dots_string() });
                } else if !quoted && k == lo {
                    return Err(EmailParseError::InvalidCharacters { character_set: one_dot_string() });
                }
                escaped = false;
                dot_found = true;
            } else if !(is_alnum(c) || is_symbol(c) || (encoding == TextEncoding::Utf8 && c
                > '\u{7f}')) {
                if is_special(c) {
                    if !quoted {
                        return Err(
                            EmailParseError::InvalidCharacters {
                                character_set: special_chars_string(),
                            },
                        );
                    } else if !escaped && c == '"' {
                        return Err(EmailParseError::InvalidEscapeSequence { sequence: quote_string() });
                    }
                } else {
                    let bad = str.substring_char(k, k + 1).to_owned();
                    assert(bad@ =~= seq![c]);
                    return Err(EmailParseError::InvalidCharacters { character_set: bad });
                }
                escaped = false;
                dot_found = false;
            } else {
                dot_found = false;
                escaped = false;
            }
            k = k + 1;
        }
        Ok(dot_found)
    }

    /// The email address as it is written: `local@domain`, or
    /// `name <local@domain>` with a display name.
    pub fn to_string(&self) -> (r: String)
        ensures
            r@ == email_text(self@),
    {
        let domain = self.domain.to_string();
        let mut s = String::new();
        match &self.display_name {
            Some(name) => {
                s.append(name.as_str());
                s.append(" <");
                s.append(self.local_part.as_str());
                s.append("@");
                s.append(domain.as_str());
                s.append(">");
                proof {
                    reveal_strlit(" <");
                    reveal_strlit("@");
                    reveal_strlit(">");
                }
                assert(s@ =~= email_text(self@));
            },
            None => {
                s.append(self.local_part.as_str());
                s.append("@");
                s.append(domain.as_str());
                proof {
                    reveal_strlit("@");
                }
                assert(s@ =~= email_text(self@));
            },
        }
        s
    }
}

impl core::str::FromStr for EmailAddress {
    type Err = EmailParseError;

    fn from_str(s: &str) -> (r: Result<Self, Self::Err>)
        ensures
            email_result_view(r) == parse_email_spec(s@, default_email_options()),
    {
        Self::try_parse(s, &EmailValidationOptions::new())
    }
}

/// An email address parsed from a text with the default options, described by
/// its view; the conversion's exact outcome is stated by its own `ensures`.
pub open spec fn default_email_parse(s: Seq<char>) -> Result<EmailAddress, EmailParseError> {
    match parse_email_spec(s, default_email_options()) {
        Ok(e) => Ok(choose|x: EmailAddress| x@ == e),
        Err(e) => Err(choose|x: EmailParseError| x@ == e),
    }
}

impl<'a> vstd::std_specs::convert::TryFromSpecImpl<&'a str> for EmailAddress {
    open spec fn obeys_try_from_spec() -> bool {
        false
    }

    open spec fn try_from_spec(v: &'a str) -> Result<Self, EmailParseError> {
        default_email_parse(v@)
    }
}

impl vstd::std_specs::convert::TryFromSpecImpl<String> for EmailAddress {
    open spec fn obeys_try_from_spec() -> bool {
        false
    }

    open spec fn try_from_spec(v: String) -> Result<Self, EmailParseError> {
        default_email_parse(v@)
    }
}

impl<'a> TryFrom<&'a str> for EmailAddress {
    type Error = EmailParseError;

    fn try_from(value: &'a str) -> (r: Result<Self, Self::Error>)
        ensures
            email_result_view(r) == parse_email_spec(value@, default_email_options()),
    {
        Self::try_parse(value, &EmailValidationOptions::new())
    }
}

impl TryFrom<String> for EmailAddress {
    type Error = EmailParseError;

    fn try_from(value: String) -> (r: Result<Self, Self::Error>)
        ensures
            email_result_view(r) == parse_email_spec(value@, default_email_options()),
    {
        Self::try_parse(value.as_str(), &EmailValidationOptions::new())
    }
}

} // verus!
