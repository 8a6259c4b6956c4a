//! Properties of the validators that hold for every input: what a successful
//! parse guarantees of its result, and how parsing treats its own output.
use vstd::prelude::*;

use crate::domain::{
    domain_char_allowed, domain_text, ipv6_tag, normalize_domain_text, parse_domain_spec,
    scan_host_name, DomainType, DomainView,
};
use crate::email::{
    at_sign_index, clean_local_part, email_text, find_at_sign,
    has_display_name_form, is_quoted_local_part, is_special_char,
    parse_email_spec, parse_local_part_spec, scan_local_part, split_display_name,
};
use crate::ip::{ip_literal_kind, is_ip_literal_char, lemma_ip_literal_chars};
use crate::options::{
    clean_text, CommentSupport, DisplayNameSupport, DomainSupport, DomainValidationOptions,
    EmailValidationOptions, LocalPartValidationOptions, TrimWhitespace,
};
use crate::text::{
    is_whitespace_char, lemma_trim_chars_ends, lemma_trim_end_idempotent,
    lemma_trim_end_keeps_start, lemma_trim_idempotent, lemma_trim_start_idempotent,
    lemma_trim_start_keeps_end, lemma_utf8_len_concat, lemma_utf8_len_subrange, trim_chars,
    trim_end_chars, trim_start_chars, utf8_len,
};

verus! {

// ---------------------------------------------------------------------------
// Trimming and comments
// ---------------------------------------------------------------------------

/// Trimming whitespace twice in the same mode gives what trimming once gives.
pub proof fn lemma_trim_whitespace_idempotent(mode: TrimWhitespace, s: Seq<char>)
    ensures
        mode.spec_trim(mode.spec_trim(s)) == mode.spec_trim(s),
{
    match mode {
        TrimWhitespace::NoTrim => {},
        TrimWhitespace::Start => lemma_trim_start_idempotent(s),
        TrimWhitespace::End => lemma_trim_end_idempotent(s),
        TrimWhitespace::Both => lemma_trim_idempotent(s),
    }
}

/// Text that neither starts with `(` nor ends with `)` holds no comment to remove.
pub proof fn lemma_comments_unchanged(comments: CommentSupport, s: Seq<char>)
    requires
        s.len() > 0 ==> s[0] != '(' && s.last() != ')',
    ensures
        comments.spec_trim(s) == s,
{
}

/// Cleaning (trimming, removing comments, trimming) a text that is already
/// clean and has no comment to remove leaves it as it is.
proof fn lemma_clean_text_fixed(
    s: Seq<char>,
    trim: TrimWhitespace,
    comments: CommentSupport,
)
    requires
        clean_text(s, trim, comments).len() > 0 ==> clean_text(s, trim, comments)[0] != '('
            && clean_text(s, trim, comments).last() != ')',
    ensures
        clean_text(clean_text(s, trim, comments), trim, comments) == clean_text(
            s,
            trim,
            comments,
        ),
{
    reveal(clean_text);
    let c = clean_text(s, trim, comments);
    let x = comments.spec_trim(trim.spec_trim(s));
    lemma_trim_whitespace_idempotent(trim, x);
    assert(trim.spec_trim(c) == c);
    lemma_comments_unchanged(comments, c);
}

/// Trimming in any mode leaves text that neither starts nor ends with
/// whitespace as it is.
pub(crate) proof fn lemma_trim_fixed(mode: TrimWhitespace, s: Seq<char>)
    requires
        s.len() > 0 ==> !is_whitespace_char(s[0]) && !is_whitespace_char(s.last()),
    ensures
        mode.spec_trim(s) == s,
{
    assert(trim_start_chars(s) == s);
    assert(trim_end_chars(s) == s);
}

/// The characters of a trimmed text all come from the text.
proof fn lemma_trim_chars_within(x: Seq<char>, c: char)
    requires
        forall|j: int| 0 <= j < x.len() ==> x[j] != c,
    ensures
        forall|j: int| 0 <= j < trim_chars(x).len() ==> trim_chars(x)[j] != c,
{
    let a = trim_start_chars(x);
    lemma_trim_start_keeps_end(x);
    lemma_trim_end_keeps_start(a);
    let off = x.len() - a.len();
    assert forall|j: int| 0 <= j < trim_chars(x).len() implies trim_chars(x)[j] != c by {
        assert(trim_chars(x)[j] == a[j]);
        assert(a[j] == x[off + j]);
    }
}

/// A trimmed text followed by a space trims back to the text.
proof fn lemma_trim_trailing_space(name: Seq<char>)
    requires
        trim_chars(name) == name,
    ensures
        trim_chars(name.push(' ')) == name,
{
    lemma_trim_chars_ends(name);
    let t = name.push(' ');
    if name.len() > 0 {
        assert(t[0] == name[0]);
        assert(trim_start_chars(t) == t);
        assert(t.drop_last() =~= name);
        assert(trim_end_chars(name) == name);
    } else {
        assert(t.drop_first() =~= Seq::<char>::empty());
        assert(trim_start_chars(t) == trim_start_chars(t.drop_first()));
    }
}

// ---------------------------------------------------------------------------
// Local parts
// ---------------------------------------------------------------------------

/// An unquoted local part that passes the character checks holds no special
/// character.
proof fn lemma_scan_unquoted_no_special(
    t: Seq<char>,
    k: int,
    dot: bool,
    esc: bool,
    encoding: crate::options::TextEncoding,
)
    requires
        0 <= k,
        scan_local_part(t, k, dot, esc, false, encoding) is Ok,
    ensures
        forall|j: int| k <= j < t.len() ==> !is_special_char(#[trigger] t[j]),
    decreases t.len() - k,
{
    if k < t.len() {
        let c = t[k];
        if c == '.' {
            lemma_scan_unquoted_no_special(t, k + 1, true, false, encoding);
        } else {
            lemma_scan_unquoted_no_special(t, k + 1, false, false, encoding);
        }
        assert forall|j: int| k <= j < t.len() implies !is_special_char(#[trigger] t[j]) by {
            if j == k {
            }
        }
    }
}

/// What an unquoted local part that passes the character checks looks like
/// from index `k` on: no `.` follows a `.`, the last character is not a `.`,
/// and when a `.` came just before, the character at `k` is not a `.` either.
proof fn lemma_scan_unquoted_dots(
    t: Seq<char>,
    k: int,
    dot: bool,
    esc: bool,
    encoding: crate::options::TextEncoding,
)
    requires
        0 <= k,
        scan_local_part(t, k, dot, esc, false, encoding) == Ok::<bool, crate::error::EmailErrorView>(
            false,
        ),
    ensures
        forall|j: int| k <= j < t.len() - 1 ==> !(#[trigger] t[j] == '.' && t[j + 1] == '.'),
        k < t.len() ==> t.last() != '.',
        k < t.len() && dot ==> t[k] != '.',
        k >= t.len() ==> !dot,
        k == 0 && 0 < t.len() ==> t[0] != '.',
    decreases t.len() - k,
{
    if k < t.len() {
        let c = t[k];
        if c == '.' {
            lemma_scan_unquoted_dots(t, k + 1, true, false, encoding);
        } else {
            lemma_scan_unquoted_dots(t, k + 1, false, false, encoding);
        }
        assert forall|j: int| k <= j < t.len() - 1 implies !(#[trigger] t[j] == '.' && t[j + 1]
            == '.') by {
            if j == k && c == '.' {
                assert(k + 1 < t.len());
            }
        }
    }
}

/// A cleaned local part that validates is clean: cleaning it again leaves it as it is.
proof fn lemma_valid_local_part_is_clean(s: Seq<char>, o: LocalPartValidationOptions)
    requires
        parse_local_part_spec(s, o) is Ok,
    ensures
        clean_local_part(clean_local_part(s, o), o) == clean_local_part(s, o),
{
    let c = clean_local_part(s, o);
    let quoted = is_quoted_local_part(c, o);
    if !quoted {
        lemma_scan_unquoted_no_special(c, 0, false, false, o.text_encoding);
        if c.len() > 0 {
            assert(!is_special_char(c[0]));
            assert(!is_special_char(c[c.len() - 1]));
        }
    }
    lemma_clean_text_fixed(s, o.trim_whitespace, o.comments);
}

/// A local part that validates is accepted again, unchanged, when it is
/// validated a second time with the same options: the local part of a parsed
/// address can be handed to `EmailAddress::try_create`.
pub proof fn lemma_local_part_revalidates(s: Seq<char>, o: LocalPartValidationOptions)
    requires
        parse_local_part_spec(s, o) is Ok,
    ensures
        parse_local_part_spec(parse_local_part_spec(s, o)->Ok_0, o) == parse_local_part_spec(
            s,
            o,
        ),
{
    lemma_valid_local_part_is_clean(s, o);
}

/// What a validated local part looks like: it is not empty, it is no longer
/// than allowed, and when it is not quoted it holds no special character and
/// no `.` at its start, at its end, or right after another `.`.
pub proof fn lemma_local_part_shape(s: Seq<char>, o: LocalPartValidationOptions)
    requires
        parse_local_part_spec(s, o) is Ok,
    ensures
        ({
            let lp = parse_local_part_spec(s, o)->Ok_0;
            &&& lp == clean_local_part(s, o)
            &&& lp.len() > 0
            &&& utf8_len(lp) <= o.max_length
            &&& !is_quoted_local_part(lp, o) ==> {
                &&& forall|j: int| 0 <= j < lp.len() ==> !is_special_char(#[trigger] lp[j])
                &&& lp.len() > 0 ==> lp[0] != '.' && lp.last() != '.'
                &&& forall|j: int|
                    0 <= j < lp.len() - 1 ==> !(#[trigger] lp[j] == '.' && lp[j + 1] == '.')
            }
        }),
{
    let c = clean_local_part(s, o);
    if !is_quoted_local_part(c, o) {
        lemma_scan_unquoted_no_special(c, 0, false, false, o.text_encoding);
        lemma_scan_unquoted_dots(c, 0, false, false, o.text_encoding);
    }
}

/// A local part that nothing is left of once trimmed and rid of its allowed
/// comments is missing.
pub proof fn lemma_blank_local_part_missing(s: Seq<char>, o: LocalPartValidationOptions)
    requires
        clean_local_part(s, o).len() == 0,
    ensures
        parse_local_part_spec(s, o) == Err::<Seq<char>, crate::error::EmailErrorView>(
            crate::error::EmailErrorView::MissingLocalPart,
        ),
{
}

/// Plain text (dots and the characters allowed without quoting) with no `.`
/// at its start, at its end or after another `.` passes the character checks.
proof fn lemma_scan_plain_accepted(
    t: Seq<char>,
    k: int,
    dot: bool,
    esc: bool,
    encoding: crate::options::TextEncoding,
)
    requires
        0 <= k <= t.len(),
        forall|j: int|
            k <= j < t.len() ==> #[trigger] t[j] == '.' || crate::email::is_plain_local_char(
                t[j],
                encoding,
            ),
        forall|j: int| k <= j < t.len() - 1 ==> !(#[trigger] t[j] == '.' && t[j + 1] == '.'),
        k < t.len() ==> t.last() != '.',
        k == 0 && 0 < t.len() ==> t[0] != '.',
        dot && k < t.len() ==> t[k] != '.',
        k == t.len() ==> !dot,
    ensures
        scan_local_part(t, k, dot, esc, false, encoding) == Ok::<
            bool,
            crate::error::EmailErrorView,
        >(false),
    decreases t.len() - k,
{
    if k < t.len() {
        let c = t[k];
        if c == '.' {
            if k + 1 < t.len() {
                assert(!(t[k] == '.' && t[k + 1] == '.'));
            }
            lemma_scan_plain_accepted(t, k + 1, true, false, encoding);
        } else {
            lemma_scan_plain_accepted(t, k + 1, false, false, encoding);
        }
    }
}

/// A local part that, once cleaned, is not empty, is made of letters, digits,
/// the symbols ``!#$%&'*+-/=?^_`{|}~`` (and, when UTF-8 is allowed, characters
/// beyond ASCII), with dots only between such characters, and that is within
/// the length limit, is accepted as it is.
pub proof fn lemma_plain_local_part_accepted(s: Seq<char>, o: LocalPartValidationOptions)
    requires
        clean_local_part(s, o).len() > 0,
        utf8_len(clean_local_part(s, o)) <= o.max_length,
        forall|j: int|
            0 <= j < clean_local_part(s, o).len() ==> #[trigger] clean_local_part(s, o)[j] == '.'
                || crate::email::is_plain_local_char(clean_local_part(s, o)[j], o.text_encoding),
        clean_local_part(s, o).len() > 0 ==> clean_local_part(s, o)[0] != '.'
            && clean_local_part(s, o).last() != '.',
        forall|j: int|
            0 <= j < clean_local_part(s, o).len() - 1 ==> !(#[trigger] clean_local_part(s, o)[j]
                == '.' && clean_local_part(s, o)[j + 1] == '.'),
    ensures
        parse_local_part_spec(s, o) == Ok::<Seq<char>, crate::error::EmailErrorView>(
            clean_local_part(s, o),
        ),
{
    let c = clean_local_part(s, o);
    if c.len() > 0 {
        assert(c[0] == '.' || crate::email::is_plain_local_char(c[0], o.text_encoding));
    }
    lemma_scan_plain_accepted(c, 0, false, false, o.text_encoding);
}

/// The character checks never report a length error.
proof fn lemma_scan_local_no_length_error(
    t: Seq<char>,
    k: int,
    dot: bool,
    esc: bool,
    quoted: bool,
    encoding: crate::options::TextEncoding,
)
    ensures
        !(scan_local_part(t, k, dot, esc, quoted, encoding) matches Err(
            crate::error::EmailErrorView::LocalPartLengthExceeded { .. },
        )),
    decreases t.len() - k,
{
    if 0 <= k < t.len() {
        let c = t[k];
        lemma_scan_local_no_length_error(t, k + 1, true, false, quoted, encoding);
        lemma_scan_local_no_length_error(t, k + 1, false, false, quoted, encoding);
        lemma_scan_local_no_length_error(t, k + 1, dot, !esc, quoted, encoding);
    }
}

/// The length of a local part is counted in bytes once it is trimmed and rid
/// of its allowed comments; a local part longer than `max_length` is refused
/// for its length, before any character is looked at, and only such a local
/// part is.
pub proof fn lemma_local_part_length(s: Seq<char>, o: LocalPartValidationOptions)
    ensures
        utf8_len(clean_local_part(s, o)) > o.max_length <==> parse_local_part_spec(s, o)
            == Err::<Seq<char>, crate::error::EmailErrorView>(
            crate::error::EmailErrorView::LocalPartLengthExceeded {
                length: utf8_len(clean_local_part(s, o)),
                max_length: o.max_length as nat,
            },
        ),
{
    let c = clean_local_part(s, o);
    if c.len() == 0 {
        assert(c =~= Seq::<char>::empty());
        assert(crate::text::byte_offset(c, 0) == 0) by {
            crate::text::lemma_byte_offset_zero(c);
        }
        assert(c.take(0) =~= c);
    } else if utf8_len(c) <= o.max_length {
        let quoted = is_quoted_local_part(c, o);
        let t = if quoted {
            c.subrange(1, c.len() - 1)
        } else {
            c
        };
        lemma_scan_local_no_length_error(t, 0, false, false, quoted, o.text_encoding);
    }
}

/// The characters that may stand between the quotes of a quoted local part
/// without an escape: the characters allowed without quoting, `.`, and the
/// special characters other than `"` and `\`.
pub open spec fn is_quotable_char(c: char, encoding: crate::options::TextEncoding) -> bool {
    ||| c == '.'
    ||| crate::email::is_plain_local_char(c, encoding)
    ||| (is_special_char(c) && c != '"' && c != '\\')
}

proof fn lemma_scan_quoted_accepted(
    t: Seq<char>,
    k: int,
    dot: bool,
    esc: bool,
    encoding: crate::options::TextEncoding,
)
    requires
        0 <= k <= t.len(),
        forall|j: int| k <= j < t.len() ==> is_quotable_char(#[trigger] t[j], encoding),
        k < t.len() ==> t.last() != '.',
        k == t.len() ==> !dot,
    ensures
        scan_local_part(t, k, dot, esc, true, encoding) == Ok::<
            bool,
            crate::error::EmailErrorView,
        >(false),
    decreases t.len() - k,
{
    if k < t.len() {
        let c = t[k];
        assert(is_quotable_char(c, encoding));
        if c == '.' {
            lemma_scan_quoted_accepted(t, k + 1, true, false, encoding);
        } else {
            lemma_scan_quoted_accepted(t, k + 1, false, false, encoding);
        }
    }
}

/// A quoted local part (quoting allowed) within the length limit, whose text
/// between the quotes is made of characters that need no escape and does not
/// end with a `.`, is accepted as it is, quotes included.
pub proof fn lemma_quoted_local_part_accepted(s: Seq<char>, o: LocalPartValidationOptions)
    requires
        o.quoted_support == crate::options::QuotedSupport::Allowed,
        clean_local_part(s, o).len() >= 2,
        clean_local_part(s, o)[0] == '"',
        clean_local_part(s, o).last() == '"',
        utf8_len(clean_local_part(s, o)) <= o.max_length,
        forall|j: int|
            1 <= j < clean_local_part(s, o).len() - 1 ==> is_quotable_char(
                #[trigger] clean_local_part(s, o)[j],
                o.text_encoding,
            ),
        clean_local_part(s, o).len() > 2 ==> clean_local_part(s, o)[clean_local_part(s, o).len()
            - 2] != '.',
    ensures
        parse_local_part_spec(s, o) == Ok::<Seq<char>, crate::error::EmailErrorView>(
            clean_local_part(s, o),
        ),
{
    let c = clean_local_part(s, o);
    let t = c.subrange(1, c.len() - 1);
    assert forall|j: int| 0 <= j < t.len() implies is_quotable_char(
        #[trigger] t[j],
        o.text_encoding,
    ) by {
        assert(t[j] == c[j + 1]);
    }
    if t.len() > 0 {
        assert(t.last() == c[c.len() - 2]);
    }
    lemma_scan_quoted_accepted(t, 0, false, false, o.text_encoding);
}

/// The text between the quotes of an accepted quoted local part ends neither
/// with a `.` nor with a pending `\`.
proof fn lemma_scan_quoted_end(
    t: Seq<char>,
    k: int,
    dot: bool,
    esc: bool,
    encoding: crate::options::TextEncoding,
)
    requires
        0 <= k < t.len(),
        scan_local_part(t, k, dot, esc, true, encoding) == Ok::<
            bool,
            crate::error::EmailErrorView,
        >(false),
    ensures
        t.last() != '.',
        t.last() != '\\',
    decreases t.len() - k,
{
    let c = t[k];
    if k + 1 < t.len() {
        if c == '\\' {
            lemma_scan_quoted_end(t, k + 1, dot, !esc, encoding);
        } else if c == '.' {
            lemma_scan_quoted_end(t, k + 1, true, false, encoding);
        } else {
            lemma_scan_quoted_end(t, k + 1, false, false, encoding);
        }
    } else {
        assert(t.last() == c);
        if c == '.' {
            assert(scan_local_part(t, k + 1, true, false, true, encoding) == Ok::<
                bool,
                crate::error::EmailErrorView,
            >(true));
        }
    }
}

/// An accepted quoted local part does not end, before its closing quote, with
/// a `.` or with a `\` left without the character it escapes.
pub proof fn lemma_quoted_local_part_end(s: Seq<char>, o: LocalPartValidationOptions)
    requires
        parse_local_part_spec(s, o) is Ok,
        is_quoted_local_part(clean_local_part(s, o), o),
        clean_local_part(s, o).len() > 2,
    ensures
        ({
            let c = clean_local_part(s, o);
            c[c.len() - 2] != '.' && c[c.len() - 2] != '\\'
        }),
{
    let c = clean_local_part(s, o);
    let t = c.subrange(1, c.len() - 1);
    lemma_scan_quoted_end(t, 0, false, false, o.text_encoding);
    assert(t.last() == c[c.len() - 2]);
}

// ---------------------------------------------------------------------------
// Domains
// ---------------------------------------------------------------------------

/// What a host name that passes the character checks holds from index `k` on:
/// dots and allowed characters only; and whether it holds a dot.
proof fn lemma_scan_host_name(
    t: Seq<char>,
    k: int,
    is_host: bool,
    label_start: int,
    o: DomainValidationOptions,
)
    requires
        0 <= k,
        scan_host_name(t, k, is_host, label_start, o) is Ok,
    ensures
        forall|j: int|
            k <= j < t.len() ==> #[trigger] t[j] == '.' || domain_char_allowed(
                t[j],
                o.text_encoding,
            ),
        scan_host_name(t, k, is_host, label_start, o)->Ok_0 <==> (is_host || exists|j: int|
            k <= j < t.len() && #[trigger] t[j] == '.'),
    decreases t.len() - k,
{
    if k < t.len() {
        let c = t[k];
        if c == '.' {
            lemma_scan_host_name(t, k + 1, true, k + 1, o);
        } else {
            lemma_scan_host_name(t, k + 1, is_host, label_start, o);
            if exists|j: int| k <= j < t.len() && #[trigger] t[j] == '.' {
                let j = choose|j: int| k <= j < t.len() && #[trigger] t[j] == '.';
                assert(k + 1 <= j);
            }
        }
        assert forall|j: int| k <= j < t.len() implies #[trigger] t[j] == '.' || domain_char_allowed(
            t[j],
            o.text_encoding,
        ) by {
            if j == k {
            }
        }
    }
}

/// What a parsed domain looks like: its address is no longer than allowed;
/// a host name holds a `.`, a local domain holds none, and both hold only
/// dots and allowed characters; an IP address is a literal the grammar of IP
/// addresses accepts; and each type is returned only when the options support it.
pub proof fn lemma_domain_shape(s: Seq<char>, o: DomainValidationOptions)
    requires
        parse_domain_spec(s, o) is Ok,
    ensures
        ({
            let d = parse_domain_spec(s, o)->Ok_0;
            &&& utf8_len(d.address) <= o.max_length
            &&& d.domain_type == DomainType::HostName ==> d.address.contains('.')
            &&& d.domain_type == DomainType::LocalDomain ==> {
                &&& !d.address.contains('.')
                &&& (o.domain_support == DomainSupport::All || o.domain_support
                    == DomainSupport::LocalAndHostName)
            }
            &&& d.domain_type != DomainType::IpAddress ==> {
                &&& d.address == normalize_domain_text(s, o)
                &&& forall|j: int|
                    0 <= j < d.address.len() ==> #[trigger] d.address[j] == '.'
                        || domain_char_allowed(d.address[j], o.text_encoding)
            }
            &&& d.domain_type == DomainType::IpAddress ==> {
                &&& ip_literal_kind(d.address) is Some
                &&& (o.domain_support == DomainSupport::All || o.domain_support
                    == DomainSupport::IpAddressAndHostName)
            }
        }),
{
    let t = normalize_domain_text(s, o);
    let d = parse_domain_spec(s, o)->Ok_0;
    if t.len() > 0 && t.last() == ']' && t[0] == '[' {
        let addr = t.subrange(1, t.len() - 1);
        crate::text::lemma_utf8_len_subrange(t, 1, t.len() - 1);
        if addr.len() >= 5 && addr.take(5) == ipv6_tag() {
            crate::text::lemma_utf8_len_subrange(addr, 5, addr.len() as int);
            assert(addr.skip(5) =~= addr.subrange(5, addr.len() as int));
        } else {
            assert(addr =~= t.subrange(1, t.len() - 1));
        }
    } else {
        lemma_scan_host_name(t, 0, false, 0, o);
        if d.domain_type == DomainType::HostName {
            let j = choose|j: int| 0 <= j < t.len() && #[trigger] t[j] == '.';
            assert(d.address[j] == '.');
        }
    }
}

/// Parsing the address of a parsed host name or local domain again, with the
/// same options, gives the same domain.
pub proof fn lemma_domain_reparses(s: Seq<char>, o: DomainValidationOptions)
    requires
        parse_domain_spec(s, o) is Ok,
        parse_domain_spec(s, o)->Ok_0.domain_type != DomainType::IpAddress,
    ensures
        parse_domain_spec(parse_domain_spec(s, o)->Ok_0.address, o) == parse_domain_spec(s, o),
{
    let t = normalize_domain_text(s, o);
    lemma_domain_shape(s, o);
    lemma_scan_host_name(t, 0, false, 0, o);
    if t.len() > 0 {
        assert(t[0] == '.' || domain_char_allowed(t[0], o.text_encoding));
        assert(t[t.len() - 1] == '.' || domain_char_allowed(t[t.len() - 1], o.text_encoding));
    }
    lemma_clean_text_fixed(s, o.trim_whitespace, o.comments);
}

/// The index at which the DNS label holding the character with index `k` of
/// `t` starts: just after the last `.` before it, or at zero.
pub open spec fn label_start(t: Seq<char>, k: int) -> int {
    match t.take(k).index_of_last('.') {
        Some(p) => p + 1,
        None => 0,
    }
}

/// Every character of `t` is a `.` or a character allowed in host names.
pub open spec fn host_chars_allowed(t: Seq<char>, o: DomainValidationOptions) -> bool {
    forall|j: int|
        0 <= j < t.len() ==> #[trigger] t[j] == '.' || domain_char_allowed(t[j], o.text_encoding)
}

/// Every character of `t` other than `.` stands fewer than `max_dns_length`
/// characters into its DNS label: no label has more than `max_dns_length`
/// characters.
pub open spec fn labels_within_limit(t: Seq<char>, o: DomainValidationOptions) -> bool {
    forall|k: int|
        0 <= k < t.len() && #[trigger] t[k] != '.' ==> k - label_start(t, k) < o.max_dns_length
}

proof fn lemma_label_start_step(t: Seq<char>, k: int)
    requires
        0 <= k < t.len(),
    ensures
        t[k] == '.' ==> label_start(t, k + 1) == k + 1,
        t[k] != '.' ==> label_start(t, k + 1) == label_start(t, k),
        t.take(k + 1).contains('.') == (t.take(k).contains('.') || t[k] == '.'),
{
    let a = t.take(k);
    let b = t.take(k + 1);
    assert(b =~= a.push(t[k]));
    a.index_of_last_ensures('.');
    b.index_of_last_ensures('.');
    if t[k] == '.' {
        assert(b[k] == '.');
        assert(b.contains('.'));
        let q = b.index_of_last('.')->Some_0;
        if q < k {
            assert(b[k] != '.');
        }
    } else {
        if b.contains('.') {
            let q = b.index_of_last('.')->Some_0;
            assert(q != k);
            assert(a[q] == '.');
            assert(a.contains('.'));
            let p = a.index_of_last('.')->Some_0;
            if p < q {
                assert(a[q] == b[q]);
            } else if q < p {
                assert(b[p] == a[p]);
            }
        }
        if a.contains('.') {
            let i = choose|i: int| 0 <= i < a.len() && a[i] == '.';
            assert(b[i] == '.');
        }
    }
}

/// The character checks on host names accept `t` from index `k` on exactly
/// when its remaining characters are allowed and each stands within the DNS
/// label limit; they then tell whether `t` holds a `.`. When all remaining
/// characters are allowed, the only refusal is a label that is too long.
proof fn lemma_scan_host_name_exact(t: Seq<char>, k: int, o: DomainValidationOptions)
    requires
        0 <= k <= t.len(),
    ensures
        ({
            let r = scan_host_name(t, k, t.take(k).contains('.'), label_start(t, k), o);
            &&& r is Ok <==> {
                &&& forall|j: int|
                    k <= j < t.len() ==> #[trigger] t[j] == '.' || domain_char_allowed(
                        t[j],
                        o.text_encoding,
                    )
                &&& forall|j: int|
                    k <= j < t.len() && #[trigger] t[j] != '.' ==> j - label_start(t, j)
                        < o.max_dns_length
            }
            &&& r is Ok ==> r->Ok_0 == t.contains('.')
            &&& (r is Err && forall|j: int|
                k <= j < t.len() ==> #[trigger] t[j] == '.' || domain_char_allowed(
                    t[j],
                    o.text_encoding,
                )) ==> r == Err::<bool, crate::error::DomainErrorView>(
                crate::error::DomainErrorView::DnsLabelTooLong {
                    max_dns_length: o.max_dns_length as nat,
                },
            )
        }),
    decreases t.len() - k,
{
    if k == t.len() {
        assert(t.take(k) =~= t);
    } else {
        lemma_label_start_step(t, k);
        lemma_scan_host_name_exact(t, k + 1, o);
    }
}

/// A text that, once cleaned, is neither too long nor an address literal is
/// accepted as a host name or local domain exactly when all its characters
/// are dots or characters allowed in host names and no DNS label has more
/// than `max_dns_length` characters. It is then a host
/// name when it holds a `.`; otherwise a local domain when the options
/// support local domains, and refused as unsupported when they do not.
/// When all its characters are allowed but a label has more than
/// `max_dns_length` characters, it is refused with `DnsLabelTooLong`.
pub proof fn lemma_host_name_exact(s: Seq<char>, o: DomainValidationOptions)
    requires
        utf8_len(normalize_domain_text(s, o)) <= o.max_length,
        !({
            let t = normalize_domain_text(s, o);
            t.len() > 0 && t.last() == ']' && t[0] == '['
        }),
    ensures
        ({
            let t = normalize_domain_text(s, o);
            if host_chars_allowed(t, o) && labels_within_limit(t, o) {
                if t.contains('.') {
                    parse_domain_spec(s, o) == Ok::<DomainView, crate::error::DomainErrorView>(
                        DomainView { domain_type: DomainType::HostName, address: t },
                    )
                } else if o.domain_support == DomainSupport::All || o.domain_support
                    == DomainSupport::LocalAndHostName {
                    parse_domain_spec(s, o) == Ok::<DomainView, crate::error::DomainErrorView>(
                        DomainView { domain_type: DomainType::LocalDomain, address: t },
                    )
                } else {
                    parse_domain_spec(s, o) == Err::<DomainView, crate::error::DomainErrorView>(
                        crate::error::DomainErrorView::UnsupportedDomainType,
                    )
                }
            } else if host_chars_allowed(t, o) {
                parse_domain_spec(s, o) == Err::<DomainView, crate::error::DomainErrorView>(
                    crate::error::DomainErrorView::DnsLabelTooLong {
                        max_dns_length: o.max_dns_length as nat,
                    },
                )
            } else {
                parse_domain_spec(s, o) is Err
            }
        }),
{
    let t = normalize_domain_text(s, o);
    assert(t.take(0) =~= Seq::<char>::empty());
    assert(t.take(0).index_of_last('.') is None) by {
        t.take(0).index_of_last_ensures('.');
    }
    lemma_scan_host_name_exact(t, 0, o);
    assert(!t.take(0).contains('.'));
}

/// A text that, once cleaned, is within the length limit and enclosed in
/// brackets is refused as an unsupported domain type when the options support
/// only host names, or only local domains and host names, whatever lies
/// between the brackets.
pub proof fn lemma_address_literal_unsupported(s: Seq<char>, o: DomainValidationOptions)
    requires
        utf8_len(normalize_domain_text(s, o)) <= o.max_length,
        normalize_domain_text(s, o).len() > 0,
        normalize_domain_text(s, o)[0] == '[',
        normalize_domain_text(s, o).last() == ']',
        o.domain_support == DomainSupport::HostNameOnly || o.domain_support
            == DomainSupport::LocalAndHostName,
    ensures
        parse_domain_spec(s, o) == Err::<DomainView, crate::error::DomainErrorView>(
            crate::error::DomainErrorView::UnsupportedDomainType,
        ),
{
}

/// Writing a parsed domain as it stands in an email address (IP addresses in
/// brackets, without an `IPv6:` tag) and parsing that text again, with the
/// same options, gives the same domain.
#[verifier::rlimit(40)]
pub proof fn lemma_domain_text_reparses(s: Seq<char>, o: DomainValidationOptions)
    requires
        parse_domain_spec(s, o) is Ok,
    ensures
        parse_domain_spec(domain_text(parse_domain_spec(s, o)->Ok_0), o) == parse_domain_spec(s, o),
{
    let d = parse_domain_spec(s, o)->Ok_0;
    lemma_domain_shape(s, o);
    if d.domain_type != DomainType::IpAddress {
        lemma_domain_reparses(s, o);
    } else {
        let t = normalize_domain_text(s, o);
        let addr = t.subrange(1, t.len() - 1);
        assert(t =~= seq!['['] + addr + seq![']']);
        let a = d.address;
        let u = seq!['['] + a + seq![']'];
        assert(domain_text(d) == u);
        // The literal between the brackets is all there is to clean.
        lemma_trim_fixed(o.trim_whitespace, u);
        lemma_comments_unchanged(o.comments, u);
        reveal(clean_text);
        assert(normalize_domain_text(u, o) == u);
        // It is no longer than the text it came from.
        lemma_utf8_len_concat(seq!['['] + a, seq![']']);
        lemma_utf8_len_concat(seq!['['], a);
        lemma_utf8_len_concat(seq!['['] + addr, seq![']']);
        lemma_utf8_len_concat(seq!['['], addr);
        if addr.len() >= 5 && addr.take(5) == ipv6_tag() {
            lemma_utf8_len_subrange(addr, 5, addr.len() as int);
            assert(addr.skip(5) =~= addr.subrange(5, addr.len() as int));
        }
        // It carries no `IPv6:` tag.
        lemma_ip_literal_chars(a);
        assert(u.subrange(1, u.len() - 1) =~= a);
        if a.len() >= 5 && a.take(5) == ipv6_tag() {
            assert(a.take(5)[0] == 'I');
            assert(is_ip_literal_char(a[0]));
            assert(false);
        }
    }
}

// ---------------------------------------------------------------------------
// Email addresses
// ---------------------------------------------------------------------------

/// Reading backwards from `k`, over characters that are neither `)`, `@`
/// nor `"`, the separating `@` is the one at `m - 1`.
pub(crate) proof fn lemma_find_at_sign_skips(t: Seq<char>, k: int, m: int)
    requires
        0 < m <= k <= t.len(),
        t[m - 1] == '@',
        forall|j: int| m <= j < k ==> #[trigger] t[j] != ')' && t[j] != '@' && t[j] != '"',
    ensures
        find_at_sign(t, k, false) == Some(m - 1),
    decreases k,
{
    if k > m {
        lemma_find_at_sign_skips(t, k - 1, m);
        assert(t[k - 1] != ')' && t[k - 1] != '@' && t[k - 1] != '"');
    }
}

/// The characters of the way a parsed domain is written are neither `)`, `@`,
/// `"`, `<` nor `>`.
proof fn lemma_domain_text_chars(s: Seq<char>, o: DomainValidationOptions)
    requires
        parse_domain_spec(s, o) is Ok,
    ensures
        forall|j: int|
            0 <= j < domain_text(parse_domain_spec(s, o)->Ok_0).len() ==> {
                let c = #[trigger] domain_text(parse_domain_spec(s, o)->Ok_0)[j];
                c != ')' && c != '@' && c != '"' && c != '<' && c != '>'
            },
{
    let d = parse_domain_spec(s, o)->Ok_0;
    lemma_domain_shape(s, o);
    if d.domain_type == DomainType::IpAddress {
        lemma_ip_literal_chars(d.address);
        let u = domain_text(d);
        assert forall|j: int| 0 <= j < u.len() implies {
            let c = #[trigger] u[j];
            c != ')' && c != '@' && c != '"' && c != '<' && c != '>'
        } by {
            if 0 < j < u.len() - 1 {
                assert(u[j] == d.address[j - 1]);
                assert(is_ip_literal_char(d.address[j - 1]));
            }
        }
    }
}

/// Writing a parsed email address (`local@domain`, or `name <local@domain>`)
/// and parsing that text again, with the same options, gives the same
/// address.
#[verifier::rlimit(40)]
pub proof fn lemma_email_text_reparses(s: Seq<char>, o: EmailValidationOptions)
    requires
        parse_email_spec(s, o) is Ok,
    ensures
        parse_email_spec(email_text(parse_email_spec(s, o)->Ok_0), o) == parse_email_spec(s, o),
{
    let e = parse_email_spec(s, o)->Ok_0;
    lemma_email_shape(s, o);
    assert(e.local_part.len() > 0);
    let (text, display_name) = split_display_name(s, o)->Some_0;
    let j = at_sign_index(text)->Some_0;
    lemma_domain_text_reparses(text.skip(j + 1), o.domain_options);
    lemma_domain_text_chars(text.skip(j + 1), o.domain_options);
    let local = e.local_part;
    let dt = domain_text(e.domain);
    let addr = local + seq!['@'] + dt;
    let m = local.len() as int + 1;
    assert forall|i: int| m <= i < addr.len() implies #[trigger] addr[i] != ')' && addr[i] != '@'
        && addr[i] != '"' by {
        assert(addr[i] == dt[i - m]);
    }
    lemma_find_at_sign_skips(addr, addr.len() as int, m);
    assert(addr.take(local.len() as int) =~= local);
    assert(addr.skip(m) =~= dt);
    match e.display_name {
        None => {
            if dt.len() > 0 {
                assert(addr.last() == dt[dt.len() - 1]);
            }
            assert(!has_display_name_form(addr, o));
            assert(email_text(e) == addr);
        },
        Some(name) => {
            let full = name + seq![' ', '<'] + addr + seq!['>'];
            assert(email_text(e) =~= full);
            let p0 = s.index_of_first('<')->Some_0;
            s.index_of_first_ensures('<');
            lemma_trim_chars_within(s.take(p0), '<');
            let p = name.len() as int + 1;
            full.index_of_first_ensures('<');
            assert(full[p] == '<');
            assert(full.contains('<'));
            let q = full.index_of_first('<')->Some_0;
            if q < p {
                assert(full[q] == name[q]);
            }
            assert(q == p);
            assert(full.take(p) =~= name.push(' '));
            lemma_trim_trailing_space(name);
            assert(full.subrange(p + 1, full.len() - 1) =~= addr);
        },
    }
}

/// What a parsed email address looks like: a display name only when the
/// options allow one, and then trimmed of whitespace; a local part that
/// validates again, unchanged, with the same options (so that
/// `EmailAddress::try_create` accepts it); and the domain that parsing the
/// text after the `@` gives.
pub proof fn lemma_email_shape(s: Seq<char>, o: EmailValidationOptions)
    requires
        parse_email_spec(s, o) is Ok,
    ensures
        ({
            let e = parse_email_spec(s, o)->Ok_0;
            &&& o.display_name_support == DisplayNameSupport::Disallowed ==> e.display_name is None
            &&& e.display_name matches Some(name) ==> {
                &&& trim_chars(name) == name
                &&& name.len() > 0 ==> !is_whitespace_char(name[0]) && !is_whitespace_char(
                    name.last(),
                )
            }
            &&& e.local_part.len() > 0
            &&& parse_local_part_spec(e.local_part, o.local_part_options) == Ok::<
                Seq<char>,
                crate::error::EmailErrorView,
            >(e.local_part)
            &&& utf8_len(e.local_part) <= o.local_part_options.max_length
            &&& utf8_len(e.domain.address) <= o.domain_options.max_length
        }),
{
    let (text, display_name) = split_display_name(s, o)->Some_0;
    let j = at_sign_index(text)->Some_0;
    let local = text.take(j);
    lemma_local_part_revalidates(local, o.local_part_options);
    lemma_local_part_shape(local, o.local_part_options);
    lemma_domain_shape(text.skip(j + 1), o.domain_options);
    if let Some(name) = display_name {
        let p = s.index_of_first('<')->Some_0;
        lemma_trim_idempotent(s.take(p));
        lemma_trim_chars_ends(s.take(p));
    }
}

} // verus!
