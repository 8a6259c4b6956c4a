//! Which inputs the validators accept, stated over character classes written
//! out literally: whitespace that trimming removes, host names, local parts,
//! display names and IPv4 address literals.
use vstd::prelude::*;

use crate::domain::{parse_domain_spec, DomainType, DomainView};
use crate::email::{
    at_sign_index, clean_local_part, has_display_name_form, parse_email_spec,
    parse_local_part_spec, split_display_name, EmailAddressView,
};
use crate::error::{DomainErrorView, EmailErrorView};
use crate::laws::{
    label_start, lemma_comments_unchanged, lemma_find_at_sign_skips, lemma_host_name_exact,
    lemma_plain_local_part_accepted, lemma_trim_fixed,
};
use crate::options::{
    clean_text, DisplayNameSupport, DomainValidationOptions, EmailValidationOptions,
    LocalPartValidationOptions, TextEncoding, TrimWhitespace,
};
use crate::text::{trim_chars, trim_end_chars, trim_start_chars, utf8_len};

verus! {

// ---------------------------------------------------------------------------
// Whitespace
// ---------------------------------------------------------------------------

/// The characters of the Unicode `White_Space` property, one by one: tab, line
/// feed, vertical tab, form feed, carriage return, space, next line, no-break
/// space, ogham space mark, the spaces from en quad to hair space, line and
/// paragraph separators, narrow no-break space, medium mathematical space and
/// ideographic space.
pub open spec fn listed_white_space(c: char) -> bool {
    ||| c == '\u{9}'
    ||| c == '\u{a}'
    ||| c == '\u{b}'
    ||| c == '\u{c}'
    ||| c == '\u{d}'
    ||| c == '\u{20}'
    ||| c == '\u{85}'
    ||| c == '\u{a0}'
    ||| c == '\u{1680}'
    ||| c == '\u{2000}'
    ||| c == '\u{2001}'
    ||| c == '\u{2002}'
    ||| c == '\u{2003}'
    ||| c == '\u{2004}'
    ||| c == '\u{2005}'
    ||| c == '\u{2006}'
    ||| c == '\u{2007}'
    ||| c == '\u{2008}'
    ||| c == '\u{2009}'
    ||| c == '\u{200a}'
    ||| c == '\u{2028}'
    ||| c == '\u{2029}'
    ||| c == '\u{202f}'
    ||| c == '\u{205f}'
    ||| c == '\u{3000}'
}

/// Trimming the end removes a last character exactly when it is white space,
/// and trimming the start removes a first character exactly when it is white
/// space; trimming both ends is trimming the start, then the end. So a text
/// that ends in `"\r\n"` is trimmed as if neither were there.
pub proof fn lemma_trim_removes_exactly_white_space(s: Seq<char>, c: char)
    ensures
        listed_white_space(c) ==> TrimWhitespace::End.spec_trim(s.push(c))
            == TrimWhitespace::End.spec_trim(s),
        !listed_white_space(c) ==> TrimWhitespace::End.spec_trim(s.push(c)) == s.push(c),
        listed_white_space(c) ==> TrimWhitespace::Start.spec_trim(seq![c] + s)
            == TrimWhitespace::Start.spec_trim(s),
        !listed_white_space(c) ==> TrimWhitespace::Start.spec_trim(seq![c] + s) == seq![c] + s,
        TrimWhitespace::Both.spec_trim(s) == TrimWhitespace::End.spec_trim(
            TrimWhitespace::Start.spec_trim(s),
        ),
        TrimWhitespace::NoTrim.spec_trim(s) == s,
{
    let e = s.push(c);
    assert(e.last() == c);
    assert(e.drop_last() =~= s);
    let b = seq![c] + s;
    assert(b[0] == c);
    assert(b.drop_first() =~= s);
}

// ---------------------------------------------------------------------------
// Host names
// ---------------------------------------------------------------------------

/// A character that may stand in a DNS label: an ASCII letter (upper or lower
/// case), an ASCII digit, `-`, or, when UTF-8 text is allowed, any character
/// beyond ASCII.
pub open spec fn is_label_char(c: char, encoding: TextEncoding) -> bool {
    ||| ('A' <= c && c <= 'Z')
    ||| ('a' <= c && c <= 'z')
    ||| ('0' <= c && c <= '9')
    ||| c == '-'
    ||| (encoding == TextEncoding::Utf8 && c > '\u{7f}')
}

/// Whether `s` is a host name text: label characters and dots, holding a
/// `.`, and neither starting nor ending with white space (which trimming
/// would remove).
pub open spec fn is_host_text(s: Seq<char>, encoding: TextEncoding) -> bool {
    &&& forall|i: int| 0 <= i < s.len() ==> #[trigger] is_label_char(s[i], encoding) || s[i] == '.'
    &&& s.contains('.')
    &&& !listed_white_space(s[0])
    &&& !listed_white_space(s.last())
}

/// No run of characters without a `.` in `s` is longer than `n`: every DNS
/// label of `s` has at most `n` characters.
pub open spec fn labels_at_most(s: Seq<char>, n: int) -> bool {
    forall|i: int, j: int|
        0 <= i <= j <= s.len() && !(#[trigger] s.subrange(i, j)).contains('.') ==> j - i <= n
}

/// Text that is neither empty nor starts or ends with white space, `(` or
/// `)`, is left as it is by the cleaning that comes before validation.
proof fn lemma_clean_keeps(s: Seq<char>, trim: TrimWhitespace, comments: crate::options::CommentSupport)
    requires
        s.len() > 0,
        !crate::text::is_whitespace_char(s[0]),
        !crate::text::is_whitespace_char(s.last()),
        s[0] != '(',
        s.last() != ')',
    ensures
        clean_text(s, trim, comments) == s,
{
    reveal(clean_text);
    lemma_trim_fixed(trim, s);
    lemma_comments_unchanged(comments, s);
}

/// A text made only of ASCII letters (upper or lower case), ASCII digits,
/// `-`, `.` and, when UTF-8 text is allowed, characters beyond ASCII, that
/// holds a `.`, does not start or end with white space, is no longer than
/// `max_length` bytes and has no label longer than `max_dns_length`, is a
/// host name, kept as it is.
pub proof fn lemma_host_name_accepted(s: Seq<char>, o: DomainValidationOptions)
    requires
        is_host_text(s, o.text_encoding),
        utf8_len(s) <= o.max_length,
        labels_at_most(s, o.max_dns_length as int),
    ensures
        parse_domain_spec(s, o) == Ok::<DomainView, DomainErrorView>(
            DomainView { domain_type: DomainType::HostName, address: s },
        ),
{
    assert(is_label_char(s[0], o.text_encoding) || s[0] == '.');
    assert(is_label_char(s[s.len() - 1], o.text_encoding) || s[s.len() - 1] == '.');
    lemma_clean_keeps(s, o.trim_whitespace, o.comments);
    assert(crate::domain::normalize_domain_text(s, o) == s);
    assert forall|k: int| 0 <= k < s.len() && #[trigger] s[k] != '.' implies k - label_start(s, k)
        < o.max_dns_length by {
        let pre = s.take(k);
        pre.index_of_last_ensures('.');
        let ls = label_start(s, k);
        assert(0 <= ls <= k);
        let seg = s.subrange(ls, k + 1);
        assert forall|x: int| 0 <= x < seg.len() implies #[trigger] seg[x] != '.' by {
            assert(seg[x] == s[ls + x]);
            if ls + x < k {
                assert(pre[ls + x] == s[ls + x]);
            }
        }
        assert(!seg.contains('.'));
    }
    assert forall|j: int| 0 <= j < s.len() implies #[trigger] s[j] == '.'
        || crate::domain::domain_char_allowed(s[j], o.text_encoding) by {
        assert(is_label_char(s[j], o.text_encoding) || s[j] == '.');
    }
    lemma_host_name_exact(s, o);
}

// ---------------------------------------------------------------------------
// Local parts
// ---------------------------------------------------------------------------

/// A character that may stand in a local part without quoting: an ASCII
/// letter (upper or lower case), an ASCII digit, one of the symbols
/// ``!#$%&'*+-/=?^_`{|}~``, or, when UTF-8 text is allowed, any character
/// beyond ASCII.
pub open spec fn is_atom_char(c: char, encoding: TextEncoding) -> bool {
    ||| ('A' <= c && c <= 'Z')
    ||| ('a' <= c && c <= 'z')
    ||| ('0' <= c && c <= '9')
    ||| c == '!'
    ||| c == '#'
    ||| c == '$'
    ||| c == '%'
    ||| c == '&'
    ||| c == '\''
    ||| c == '*'
    ||| c == '+'
    ||| c == '-'
    ||| c == '/'
    ||| c == '='
    ||| c == '?'
    ||| c == '^'
    ||| c == '_'
    ||| c == '`'
    ||| c == '{'
    ||| c == '|'
    ||| c == '}'
    ||| c == '~'
    ||| (encoding == TextEncoding::Utf8 && c > '\u{7f}')
}

/// Whether `s` is such characters with single dots between them, and neither
/// starts nor ends with white space (which trimming would remove).
pub open spec fn is_dot_atom(s: Seq<char>, encoding: TextEncoding) -> bool {
    &&& s.len() > 0
    &&& forall|i: int| 0 <= i < s.len() ==> #[trigger] is_atom_char(s[i], encoding) || s[i] == '.'
    &&& s[0] != '.'
    &&& s.last() != '.'
    &&& !listed_white_space(s[0])
    &&& !listed_white_space(s.last())
    &&& forall|i: int| 0 <= i < s.len() - 1 ==> !(#[trigger] s[i] == '.' && s[i + 1] == '.')
}

/// A local part made of ASCII letters, ASCII digits, the symbols
/// ``!#$%&'*+-/=?^_`{|}~`` and, when UTF-8 text is allowed, characters beyond
/// ASCII, with single dots between them, not starting or ending with white
/// space, and no longer than `max_length` bytes, is accepted as it is.
pub proof fn lemma_dot_atom_local_part_accepted(s: Seq<char>, o: LocalPartValidationOptions)
    requires
        is_dot_atom(s, o.text_encoding),
        utf8_len(s) <= o.max_length,
    ensures
        parse_local_part_spec(s, o) == Ok::<Seq<char>, EmailErrorView>(s),
{
    assert(is_atom_char(s[0], o.text_encoding) || s[0] == '.');
    assert(is_atom_char(s[s.len() - 1], o.text_encoding) || s[s.len() - 1] == '.');
    lemma_clean_keeps(s, o.trim_whitespace, o.comments);
    assert(clean_local_part(s, o) == s);
    assert forall|j: int| 0 <= j < s.len() implies #[trigger] s[j] == '.'
        || crate::email::is_plain_local_char(s[j], o.text_encoding) by {
        assert(is_atom_char(s[j], o.text_encoding) || s[j] == '.');
    }
    lemma_plain_local_part_accepted(s, o);
}

// ---------------------------------------------------------------------------
// Whole addresses
// ---------------------------------------------------------------------------

/// An address `local@host`, with a local part of the characters allowed
/// without quoting (see [`is_atom_char`]) with single dots between them, and a
/// host name text (see [`is_host_text`]), each within its limits, parses to that local
/// part and that host name, without a display name.
pub proof fn lemma_plain_address_accepted(
    local: Seq<char>,
    host: Seq<char>,
    o: EmailValidationOptions,
)
    requires
        is_dot_atom(local, o.local_part_options.text_encoding),
        utf8_len(local) <= o.local_part_options.max_length,
        is_host_text(host, o.domain_options.text_encoding),
        utf8_len(host) <= o.domain_options.max_length,
        labels_at_most(host, o.domain_options.max_dns_length as int),
    ensures
        parse_email_spec(local + seq!['@'] + host, o) == Ok::<EmailAddressView, EmailErrorView>(
            EmailAddressView {
                display_name: None,
                local_part: local,
                domain: DomainView { domain_type: DomainType::HostName, address: host },
            },
        ),
{
    let addr = local + seq!['@'] + host;
    let m = local.len() as int + 1;
    assert(host.len() > 0);
    assert(is_label_char(host[host.len() - 1], o.domain_options.text_encoding) || host[host.len()
        - 1] == '.');
    assert(addr.last() == host[host.len() - 1]);
    assert(!has_display_name_form(addr, o));
    assert(split_display_name(addr, o) == Some::<(Seq<char>, Option<Seq<char>>)>((addr, None)));
    assert forall|j: int| m <= j < addr.len() implies #[trigger] addr[j] != ')' && addr[j] != '@'
        && addr[j] != '"' by {
        assert(addr[j] == host[j - m]);
        assert(is_label_char(host[j - m], o.domain_options.text_encoding) || host[j - m] == '.');
    }
    assert(addr[m - 1] == '@');
    lemma_find_at_sign_skips(addr, addr.len() as int, m);
    assert(at_sign_index(addr) == Some(local.len() as int));
    assert(addr.take(local.len() as int) =~= local);
    assert(addr.skip(m) =~= host);
    lemma_dot_atom_local_part_accepted(local, o.local_part_options);
    lemma_host_name_accepted(host, o.domain_options);
}

/// Adding a character at the end of a text adds it at the end of the text
/// with its leading white space removed, unless nothing is left of that text.
proof fn lemma_trim_start_push(s: Seq<char>, c: char)
    ensures
        trim_start_chars(s.push(c)) == if trim_start_chars(s).len() == 0 {
            trim_start_chars(seq![c])
        } else {
            trim_start_chars(s).push(c)
        },
    decreases s.len(),
{
    let t = s.push(c);
    if s.len() == 0 {
        assert(t =~= seq![c]);
    } else {
        assert(t[0] == s[0]);
        assert(t.drop_first() =~= s.drop_first().push(c));
        lemma_trim_start_push(s.drop_first(), c);
    }
}

/// A space added at the end of a text is removed with the rest of its
/// surrounding white space.
proof fn lemma_trim_trailing_space_dropped(s: Seq<char>)
    ensures
        trim_chars(s.push(' ')) == trim_chars(s),
{
    lemma_trim_start_push(s, ' ');
    let a = trim_start_chars(s);
    if a.len() == 0 {
        let one = seq![' '];
        assert(one.drop_first() =~= Seq::<char>::empty());
        assert(trim_start_chars(one) == trim_start_chars(one.drop_first()));
        assert(trim_start_chars(Seq::<char>::empty()) =~= Seq::<char>::empty());
        assert(a =~= Seq::<char>::empty());
    } else {
        let b = a.push(' ');
        assert(b.last() == ' ');
        assert(b.drop_last() =~= a);
    }
}

/// With display names allowed, `name <address>` (the name followed by a
/// space, then the address in angle brackets), where the name holds no `<`
/// and the address alone parses without a display name, parses to that
/// address with the name, trimmed of white space, as its display name,
/// whatever other characters the name holds.
pub proof fn lemma_display_name_accepted(
    name: Seq<char>,
    address: Seq<char>,
    o: EmailValidationOptions,
)
    requires
        o.display_name_support == DisplayNameSupport::Allowed,
        !name.contains('<'),
        parse_email_spec(address, o) is Ok,
        parse_email_spec(address, o)->Ok_0.display_name is None,
    ensures
        parse_email_spec(name + seq![' ', '<'] + address + seq!['>'], o) == Ok::<
            EmailAddressView,
            EmailErrorView,
        >(
            EmailAddressView {
                display_name: Some(trim_chars(name)),
                local_part: parse_email_spec(address, o)->Ok_0.local_part,
                domain: parse_email_spec(address, o)->Ok_0.domain,
            },
        ),
{
    let full = name + seq![' ', '<'] + address + seq!['>'];
    let p = name.len() as int + 1;
    assert(full.last() == '>');
    assert(has_display_name_form(full, o));
    assert(full[p] == '<');
    full.index_of_first_ensures('<');
    assert(full.contains('<'));
    let q = full.index_of_first('<')->Some_0;
    if q < p {
        if q < name.len() {
            assert(full[q] == name[q]);
            assert(name.contains('<'));
        } else {
            assert(full[q] == ' ');
        }
    }
    assert(q == p);
    assert(full.take(p) =~= name.push(' '));
    lemma_trim_trailing_space_dropped(name);
    assert(full.subrange(p + 1, full.len() - 1) =~= address);
    assert(split_display_name(full, o) == Some::<(Seq<char>, Option<Seq<char>>)>(
        (address, Some(trim_chars(name))),
    ));
    if has_display_name_form(address, o) {
        match address.index_of_first('<') {
            Some(_) => {
                assert(parse_email_spec(address, o)->Ok_0.display_name is Some);
            },
            None => {
                assert(parse_email_spec(address, o) is Err);
            },
        }
    }
    assert(split_display_name(address, o) == Some::<(Seq<char>, Option<Seq<char>>)>(
        (address, None),
    ));
}

// ---------------------------------------------------------------------------
// IPv4 address literals
// ---------------------------------------------------------------------------

/// The character that writes the decimal digit `d` (below ten).
pub open spec fn digit_char(d: nat) -> char {
    seq!['0', '1', '2', '3', '4', '5', '6', '7', '8', '9'][d as int]
}

/// The decimal text of `n`, without leading zeros.
pub open spec fn decimal_text(n: nat) -> Seq<char>
    decreases n,
{
    if n < 10 {
        seq![digit_char(n)]
    } else {
        decimal_text(n / 10).push(digit_char(n % 10))
    }
}

/// The dotted-quad text `a.b.c.d` of four numbers.
pub open spec fn dotted_quad(a: nat, b: nat, c: nat, d: nat) -> Seq<char> {
    decimal_text(a) + seq!['.'] + decimal_text(b) + seq!['.'] + decimal_text(c) + seq!['.']
        + decimal_text(d)
}

proof fn lemma_digit_char(d: nat)
    requires
        d < 10,
    ensures
        crate::ip::digit_value(digit_char(d), false) == Some(d),
        digit_char(d) == '0' <==> d == 0,
{
    let ds = seq!['0', '1', '2', '3', '4', '5', '6', '7', '8', '9'];
    if d == 0 { assert(ds[0] == '0'); }
    else if d == 1 { assert(ds[1] == '1'); }
    else if d == 2 { assert(ds[2] == '2'); }
    else if d == 3 { assert(ds[3] == '3'); }
    else if d == 4 { assert(ds[4] == '4'); }
    else if d == 5 { assert(ds[5] == '5'); }
    else if d == 6 { assert(ds[6] == '6'); }
    else if d == 7 { assert(ds[7] == '7'); }
    else if d == 8 { assert(ds[8] == '8'); }
    else { assert(ds[9] == '9'); }
}

/// The decimal value of `n` digits only depends on those digits.
proof fn lemma_decimal_value_frame(s: Seq<char>, p: int, t: Seq<char>, q: int, n: nat)
    requires
        0 <= p,
        p + n <= s.len(),
        0 <= q,
        q + n <= t.len(),
        s.subrange(p, p + n) == t.subrange(q, q + n),
    ensures
        crate::ip::decimal_value(s, p, n) == crate::ip::decimal_value(t, q, n),
    decreases n,
{
    if n > 0 {
        let m = (n - 1) as nat;
        assert(s.subrange(p, p + m) =~= s.subrange(p, p + n).subrange(0, m as int));
        assert(t.subrange(q, q + m) =~= t.subrange(q, q + n).subrange(0, m as int));
        lemma_decimal_value_frame(s, p, t, q, m);
        assert(s[p + m] == s.subrange(p, p + n)[m as int]);
        assert(t[q + m] == t.subrange(q, q + n)[m as int]);
    }
}

/// What the decimal text of `n` is made of: digits only, worth `n`, with a
/// leading `0` only for zero, and one, two or three of them below ten, a
/// hundred and a thousand.
proof fn lemma_decimal_text(n: nat)
    ensures
        ({
            let t = decimal_text(n);
            &&& t.len() >= 1
            &&& forall|i: int| 0 <= i < t.len() ==> crate::ip::digit_value(#[trigger] t[i], false)
                is Some
            &&& crate::ip::decimal_value(t, 0, t.len()) == n
            &&& t[0] == '0' ==> n == 0
            &&& n < 10 ==> t.len() == 1
            &&& n < 100 ==> t.len() <= 2
            &&& n < 1000 ==> t.len() <= 3
        }),
    decreases n,
{
    let t = decimal_text(n);
    if n < 10 {
        lemma_digit_char(n);
        assert(crate::ip::decimal_value(t, 0, 0) == 0);
    } else {
        let u = decimal_text(n / 10);
        lemma_decimal_text(n / 10);
        lemma_digit_char(n % 10);
        assert(t == u.push(digit_char(n % 10)));
        assert forall|i: int| 0 <= i < t.len() implies crate::ip::digit_value(#[trigger] t[i], false)
            is Some by {
            if i < u.len() {
                assert(t[i] == u[i]);
            }
        }
        assert(t.subrange(0, u.len() as int) =~= u.subrange(0, u.len() as int));
        lemma_decimal_value_frame(t, 0, u, 0, u.len());
        assert(t[u.len() as int] == digit_char(n % 10));
        assert(crate::ip::decimal_value(t, 0, t.len()) == crate::ip::decimal_value(t, 0, u.len())
            * 10 + (n % 10));
        assert(t[0] == u[0]);
    }
}

/// The run of digits from `pos` is exactly `n` long when `n` digits stand
/// there and no digit follows them.
proof fn lemma_digit_run_exact(s: Seq<char>, pos: int, n: nat, hex: bool)
    requires
        0 <= pos,
        pos + n <= s.len(),
        forall|i: int| pos <= i < pos + n ==> crate::ip::digit_value(#[trigger] s[i], hex) is Some,
        pos + n < s.len() ==> crate::ip::digit_value(s[pos + n], hex) is None,
    ensures
        crate::ip::digit_run(s, pos, hex) == n,
    decreases n,
{
    if n > 0 {
        assert(crate::ip::digit_value(s[pos], hex) is Some);
        lemma_digit_run_exact(s, pos + 1, (n - 1) as nat, hex);
    }
}

/// The decimal text of a number up to 255, standing at `pos` and followed by
/// a `.` or by the end, is read as one octet.
proof fn lemma_octet_read(s: Seq<char>, pos: int, x: nat)
    requires
        x <= 255,
        0 <= pos,
        pos + decimal_text(x).len() <= s.len(),
        s.subrange(pos, pos + decimal_text(x).len()) == decimal_text(x),
        pos + decimal_text(x).len() < s.len() ==> s[pos + decimal_text(x).len()] == '.',
    ensures
        crate::ip::read_octet(s, pos) == Some(pos + decimal_text(x).len()),
{
    let t = decimal_text(x);
    lemma_decimal_text(x);
    assert forall|i: int| pos <= i < pos + t.len() implies crate::ip::digit_value(
        #[trigger] s[i],
        false,
    ) is Some by {
        assert(s[i] == s.subrange(pos, pos + t.len())[i - pos]);
    }
    lemma_digit_run_exact(s, pos, t.len(), false);
    assert(t.subrange(0, t.len() as int) =~= t);
    lemma_decimal_value_frame(s, pos, t, 0, t.len());
    assert(s[pos] == t[0]);
}

/// Every dotted quad `a.b.c.d` of numbers from 0 to 255, written in decimal
/// without leading zeros, is an IPv4 address literal.
pub proof fn lemma_dotted_quad_is_ipv4(a: nat, b: nat, c: nat, d: nat)
    requires
        a <= 255,
        b <= 255,
        c <= 255,
        d <= 255,
    ensures
        crate::ip::ip_literal_kind(dotted_quad(a, b, c, d)) == Some(crate::ip::IpVersion::V4),
{
    let q = dotted_quad(a, b, c, d);
    let ta = decimal_text(a);
    let tb = decimal_text(b);
    let tc = decimal_text(c);
    let td = decimal_text(d);
    lemma_decimal_text(a);
    lemma_decimal_text(b);
    lemma_decimal_text(c);
    lemma_decimal_text(d);
    let e1 = ta.len() as int;
    let s2 = e1 + 1;
    let e2 = s2 + tb.len();
    let s3 = e2 + 1;
    let e3 = s3 + tc.len();
    let s4 = e3 + 1;
    let e4 = s4 + td.len();
    assert(q.len() == e4);
    assert(q.subrange(0, e1) =~= ta);
    assert(q[e1] == '.');
    assert(q.subrange(s2, e2) =~= tb);
    assert(q[e2] == '.');
    assert(q.subrange(s3, e3) =~= tc);
    assert(q[e3] == '.');
    assert(q.subrange(s4, e4) =~= td);
    lemma_octet_read(q, 0, a);
    lemma_octet_read(q, s2, b);
    lemma_octet_read(q, s3, c);
    lemma_octet_read(q, s4, d);
    assert(crate::ip::read_ipv4_octets(q, e4, 4) == Some(e4));
    assert(crate::ip::read_ipv4_octets(q, e3, 3) == Some(e4));
    assert(crate::ip::read_ipv4_octets(q, e2, 2) == Some(e4));
    assert(crate::ip::read_ipv4_octets(q, e1, 1) == Some(e4));
    assert(crate::ip::read_ipv4_octets(q, 0, 0) == Some(e4));
}

/// With IP address literals supported, `[a.b.c.d]` for numbers from 0 to
/// 255 written in decimal without leading zeros, within the length limit,
/// parses as the IP address `a.b.c.d`.
pub proof fn lemma_dotted_quad_domain_accepted(
    a: nat,
    b: nat,
    c: nat,
    d: nat,
    o: DomainValidationOptions,
)
    requires
        a <= 255,
        b <= 255,
        c <= 255,
        d <= 255,
        o.domain_support == crate::options::DomainSupport::IpAddressAndHostName
            || o.domain_support == crate::options::DomainSupport::All,
        utf8_len(seq!['['] + dotted_quad(a, b, c, d) + seq![']']) <= o.max_length,
    ensures
        parse_domain_spec(seq!['['] + dotted_quad(a, b, c, d) + seq![']'], o) == Ok::<
            DomainView,
            DomainErrorView,
        >(DomainView { domain_type: DomainType::IpAddress, address: dotted_quad(a, b, c, d) }),
{
    let q = dotted_quad(a, b, c, d);
    let t = seq!['['] + q + seq![']'];
    lemma_dotted_quad_is_ipv4(a, b, c, d);
    lemma_decimal_text(a);
    assert(q[0] == decimal_text(a)[0]);
    assert(crate::ip::digit_value(q[0], false) is Some);
    assert(t[0] == '[');
    assert(t.last() == ']');
    lemma_clean_keeps(t, o.trim_whitespace, o.comments);
    assert(crate::domain::normalize_domain_text(t, o) == t);
    let addr = t.subrange(1, t.len() - 1);
    assert(addr =~= q);
    if addr.len() >= 5 {
        assert(addr.take(5)[0] == q[0]);
        assert(addr.take(5) != crate::domain::ipv6_tag());
    }
}

// ---------------------------------------------------------------------------
// IPv6 address literals
// ---------------------------------------------------------------------------

/// A hexadecimal digit: `0` to `9`, `a` to `f` or `A` to `F`.
pub open spec fn is_hex_char(c: char) -> bool {
    ||| ('0' <= c && c <= '9')
    ||| ('a' <= c && c <= 'f')
    ||| ('A' <= c && c <= 'F')
}

/// One to four hexadecimal digits.
pub open spec fn is_hex_group(g: Seq<char>) -> bool {
    &&& 1 <= g.len() <= 4
    &&& forall|i: int| 0 <= i < g.len() ==> #[trigger] is_hex_char(g[i])
}

/// The eight groups of `gs` joined by `:`, the full form of an IPv6 address.
pub open spec fn ipv6_full_text(gs: Seq<Seq<char>>) -> Seq<char> {
    gs[0] + seq![':'] + gs[1] + seq![':'] + gs[2] + seq![':'] + gs[3] + seq![':'] + gs[4]
        + seq![':'] + gs[5] + seq![':'] + gs[6] + seq![':'] + gs[7]
}

/// No character of `s` is a `.`.
pub open spec fn no_dot(s: Seq<char>) -> bool {
    forall|j: int| 0 <= j < s.len() ==> #[trigger] s[j] != '.'
}

proof fn lemma_concat_no_dot(a: Seq<char>, b: Seq<char>)
    requires
        no_dot(a),
        no_dot(b),
    ensures
        no_dot(a + b),
{
    assert forall|j: int| 0 <= j < (a + b).len() implies #[trigger] (a + b)[j] != '.' by {
        if j < a.len() {
            assert((a + b)[j] == a[j]);
        } else {
            assert((a + b)[j] == b[j - a.len()]);
        }
    }
}

proof fn lemma_hex_group_no_dot(g: Seq<char>)
    requires
        is_hex_group(g),
    ensures
        no_dot(g),
{
    assert forall|j: int| 0 <= j < g.len() implies #[trigger] g[j] != '.' by {
        assert(is_hex_char(g[j]));
    }
}

/// Where no `.` follows `q`, no IPv4 address can be read from `q`.
proof fn lemma_no_ipv4_without_dot(s: Seq<char>, q: int)
    requires
        0 <= q,
        forall|j: int| q <= j < s.len() ==> #[trigger] s[j] != '.',
    ensures
        crate::ip::read_ipv4(s, q) is None,
{
    match crate::ip::read_octet(s, q) {
        Some(e) => {
            assert(e > q);
            assert(crate::ip::after_separator(s, e, 1, '.') is None);
            assert(crate::ip::read_ipv4_octets(s, e, 1) is None);
        },
        None => {},
    }
}

/// Reading the `i`-th group of a full IPv6 text: `g` stands at `q` (right
/// after the `:` at `pos`, or at `pos` itself for the first group) and is
/// followed by a `:` or the end.
proof fn lemma_group_step(s: Seq<char>, pos: int, i: nat, limit: nat, q: int, g: Seq<char>)
    requires
        i < limit,
        0 <= pos,
        i == 0 ==> q == pos,
        i > 0 ==> q == pos + 1 && pos < s.len() && s[pos] == ':',
        is_hex_group(g),
        q + g.len() <= s.len(),
        s.subrange(q, q + g.len()) == g,
        q + g.len() < s.len() ==> s[q + g.len()] == ':',
        no_dot(s),
    ensures
        crate::ip::read_groups(s, pos, i, limit) == crate::ip::read_groups(
            s,
            q + g.len(),
            i + 1,
            limit,
        ),
{
    assert(crate::ip::after_separator(s, pos, i, ':') == Some(q));
    lemma_no_ipv4_without_dot(s, q);
    assert forall|j: int| q <= j < q + g.len() implies crate::ip::digit_value(#[trigger] s[j], true)
        is Some by {
        assert(s[j] == s.subrange(q, q + g.len())[j - q]);
        assert(is_hex_char(g[j - q]));
    }
    lemma_digit_run_exact(s, q, g.len(), true);
    assert(crate::ip::read_hex_group(s, q) == Some(q + g.len()));
}

/// Eight groups of one to four hexadecimal digits joined by `:` are an IPv6
/// address literal.
pub proof fn lemma_ipv6_full_form(gs: Seq<Seq<char>>)
    requires
        gs.len() == 8,
        forall|i: int| 0 <= i < 8 ==> is_hex_group(#[trigger] gs[i]),
    ensures
        crate::ip::ip_literal_kind(ipv6_full_text(gs)) == Some(crate::ip::IpVersion::V6),
{
    let s = ipv6_full_text(gs);
    assert(is_hex_group(gs[0]) && is_hex_group(gs[1]) && is_hex_group(gs[2]) && is_hex_group(gs[3]));
    assert(is_hex_group(gs[4]) && is_hex_group(gs[5]) && is_hex_group(gs[6]) && is_hex_group(gs[7]));
    let colon = seq![':'];
    lemma_hex_group_no_dot(gs[0]);
    lemma_hex_group_no_dot(gs[1]);
    lemma_hex_group_no_dot(gs[2]);
    lemma_hex_group_no_dot(gs[3]);
    lemma_hex_group_no_dot(gs[4]);
    lemma_hex_group_no_dot(gs[5]);
    lemma_hex_group_no_dot(gs[6]);
    lemma_hex_group_no_dot(gs[7]);
    assert(no_dot(colon));
    let x1 = gs[0] + colon;
    lemma_concat_no_dot(gs[0], colon);
    let x2 = x1 + gs[1];
    lemma_concat_no_dot(x1, gs[1]);
    let x3 = x2 + colon;
    lemma_concat_no_dot(x2, colon);
    let x4 = x3 + gs[2];
    lemma_concat_no_dot(x3, gs[2]);
    let x5 = x4 + colon;
    lemma_concat_no_dot(x4, colon);
    let x6 = x5 + gs[3];
    lemma_concat_no_dot(x5, gs[3]);
    let x7 = x6 + colon;
    lemma_concat_no_dot(x6, colon);
    let x8 = x7 + gs[4];
    lemma_concat_no_dot(x7, gs[4]);
    let x9 = x8 + colon;
    lemma_concat_no_dot(x8, colon);
    let x10 = x9 + gs[5];
    lemma_concat_no_dot(x9, gs[5]);
    let x11 = x10 + colon;
    lemma_concat_no_dot(x10, colon);
    let x12 = x11 + gs[6];
    lemma_concat_no_dot(x11, gs[6]);
    let x13 = x12 + colon;
    lemma_concat_no_dot(x12, colon);
    lemma_concat_no_dot(x13, gs[7]);
    assert(s == x13 + gs[7]);
    assert(no_dot(s));
    let e0 = gs[0].len() as int;
    let p1 = e0 + 1;
    let e1 = p1 + gs[1].len();
    let p2 = e1 + 1;
    let e2 = p2 + gs[2].len();
    let p3 = e2 + 1;
    let e3 = p3 + gs[3].len();
    let p4 = e3 + 1;
    let e4 = p4 + gs[4].len();
    let p5 = e4 + 1;
    let e5 = p5 + gs[5].len();
    let p6 = e5 + 1;
    let e6 = p6 + gs[6].len();
    let p7 = e6 + 1;
    let e7 = p7 + gs[7].len();
    assert(s.len() == e7);
    assert(s.subrange(0, e0) =~= gs[0]);
    assert(s.subrange(p1, e1) =~= gs[1]);
    assert(s.subrange(p2, e2) =~= gs[2]);
    assert(s.subrange(p3, e3) =~= gs[3]);
    assert(s.subrange(p4, e4) =~= gs[4]);
    assert(s.subrange(p5, e5) =~= gs[5]);
    assert(s.subrange(p6, e6) =~= gs[6]);
    assert(s.subrange(p7, e7) =~= gs[7]);
    assert(s[e0] == ':' && s[e1] == ':' && s[e2] == ':' && s[e3] == ':');
    assert(s[e4] == ':' && s[e5] == ':' && s[e6] == ':');
    lemma_group_step(s, 0, 0, 8, 0, gs[0]);
    lemma_group_step(s, e0, 1, 8, p1, gs[1]);
    lemma_group_step(s, e1, 2, 8, p2, gs[2]);
    lemma_group_step(s, e2, 3, 8, p3, gs[3]);
    lemma_group_step(s, e3, 4, 8, p4, gs[4]);
    lemma_group_step(s, e4, 5, 8, p5, gs[5]);
    lemma_group_step(s, e5, 6, 8, p6, gs[6]);
    lemma_group_step(s, e6, 7, 8, p7, gs[7]);
    assert(crate::ip::read_groups(s, e7, 8, 8) == (e7, 8nat, false));
    lemma_no_ipv4_without_dot(s, 0);
}

/// With IP address literals supported, `[IPv6:` followed by eight groups of
/// one to four hexadecimal digits joined by `:` and `]`, within the length
/// limit, parses as the IP address made of those groups.
pub proof fn lemma_ipv6_domain_accepted(gs: Seq<Seq<char>>, o: DomainValidationOptions)
    requires
        gs.len() == 8,
        forall|i: int| 0 <= i < 8 ==> is_hex_group(#[trigger] gs[i]),
        o.domain_support == crate::options::DomainSupport::IpAddressAndHostName
            || o.domain_support == crate::options::DomainSupport::All,
        utf8_len(seq!['[', 'I', 'P', 'v', '6', ':'] + ipv6_full_text(gs) + seq![']'])
            <= o.max_length,
    ensures
        parse_domain_spec(seq!['[', 'I', 'P', 'v', '6', ':'] + ipv6_full_text(gs) + seq![']'], o)
            == Ok::<DomainView, DomainErrorView>(
            DomainView { domain_type: DomainType::IpAddress, address: ipv6_full_text(gs) },
        ),
{
    let q = ipv6_full_text(gs);
    let t = seq!['[', 'I', 'P', 'v', '6', ':'] + q + seq![']'];
    lemma_ipv6_full_form(gs);
    assert(t[0] == '[');
    assert(t.last() == ']');
    lemma_clean_keeps(t, o.trim_whitespace, o.comments);
    assert(crate::domain::normalize_domain_text(t, o) == t);
    let addr = t.subrange(1, t.len() - 1);
    assert(addr =~= seq!['I', 'P', 'v', '6', ':'] + q);
    assert(addr.take(5) =~= crate::domain::ipv6_tag());
    assert(addr.skip(5) =~= q);
}

/// The groups of `gs` in order, each after a `:` except the first one when
/// `lead` is false.
pub open spec fn prefixed_groups(gs: Seq<Seq<char>>, lead: bool) -> Seq<char>
    decreases gs.len(),
{
    if gs.len() == 0 {
        Seq::empty()
    } else {
        (if lead {
            seq![':']
        } else {
            Seq::empty()
        }) + gs[0] + prefixed_groups(gs.drop_first(), true)
    }
}

/// The groups of `gs` joined by `:`.
pub open spec fn colon_join(gs: Seq<Seq<char>>) -> Seq<char> {
    prefixed_groups(gs, false)
}

proof fn lemma_prefixed_groups_no_dot(gs: Seq<Seq<char>>, lead: bool)
    requires
        forall|i: int| 0 <= i < gs.len() ==> is_hex_group(#[trigger] gs[i]),
    ensures
        no_dot(prefixed_groups(gs, lead)),
    decreases gs.len(),
{
    if gs.len() > 0 {
        assert(is_hex_group(gs[0]));
        let rest = gs.drop_first();
        assert forall|i: int| 0 <= i < rest.len() implies is_hex_group(#[trigger] rest[i]) by {
            assert(rest[i] == gs[i + 1]);
        }
        lemma_prefixed_groups_no_dot(rest, true);
        lemma_hex_group_no_dot(gs[0]);
        let head: Seq<char> = if lead {
            seq![':']
        } else {
            Seq::empty()
        };
        assert(no_dot(head));
        lemma_concat_no_dot(head, gs[0]);
        lemma_concat_no_dot(head + gs[0], prefixed_groups(rest, true));
    }
}

/// Reading a run of groups: from `pos`, as the `i`-th group on, the groups
/// of `gs` are read one after the other, and reading stops right after them
/// when there is room for more but what follows is the end or `::`.
proof fn lemma_read_group_run(
    s: Seq<char>,
    pos: int,
    i: nat,
    limit: nat,
    gs: Seq<Seq<char>>,
    lead: bool,
)
    requires
        lead == (i > 0),
        i + gs.len() <= limit,
        0 <= pos,
        pos + prefixed_groups(gs, lead).len() <= s.len(),
        s.subrange(pos, pos + prefixed_groups(gs, lead).len()) == prefixed_groups(gs, lead),
        forall|j: int| 0 <= j < gs.len() ==> is_hex_group(#[trigger] gs[j]),
        no_dot(s),
        ({
            let f = pos + prefixed_groups(gs, lead).len();
            &&& f < s.len() ==> s[f] == ':'
            &&& i + gs.len() < limit ==> (f == s.len() || (f + 1 < s.len() && s[f + 1] == ':'))
        }),
    ensures
        crate::ip::read_groups(s, pos, i, limit) == (
            pos + prefixed_groups(gs, lead).len(),
            i + gs.len(),
            false,
        ),
    decreases gs.len(),
{
    let t = prefixed_groups(gs, lead);
    if gs.len() == 0 {
        assert(t.len() == 0);
        if i < limit {
            let q = if i == 0 {
                pos
            } else {
                pos + 1
            };
            if i + 1 < limit {
                match crate::ip::after_separator(s, pos, i, ':') {
                    Some(q2) => {
                        lemma_no_ipv4_without_dot(s, q2);
                    },
                    None => {},
                }
            }
            match crate::ip::after_separator(s, pos, i, ':') {
                Some(q2) => {
                    assert(q2 == q);
                    assert(crate::ip::digit_run(s, q2, true) == 0);
                },
                None => {},
            }
        }
    } else {
        let g = gs[0];
        let rest = gs.drop_first();
        assert(is_hex_group(g));
        let head: Seq<char> = if lead {
            seq![':']
        } else {
            Seq::empty()
        };
        let r = prefixed_groups(rest, true);
        assert(t == head + g + r);
        let q = pos + head.len();
        let f1 = q + g.len();
        assert(s.subrange(q, f1) =~= g) by {
            assert forall|x: int| 0 <= x < g.len() implies s.subrange(q, f1)[x] == g[x] by {
                assert(s.subrange(q, f1)[x] == s.subrange(pos, pos + t.len())[head.len() + x]);
                assert(t[head.len() + x] == g[x]);
            }
        }
        if lead {
            assert(s[pos] == s.subrange(pos, pos + t.len())[0]);
            assert(t[0] == ':');
        }
        if r.len() > 0 {
            assert(rest.len() > 0);
            assert(r[0] == ':');
            let at = (head.len() + g.len()) as int;
            assert(s[f1] == s.subrange(pos, pos + t.len())[at]);
            assert(t[at] == r[0]);
        } else {
            assert(f1 == pos + t.len());
        }
        lemma_group_step(s, pos, i, limit, q, g);
        assert forall|j: int| 0 <= j < rest.len() implies is_hex_group(#[trigger] rest[j]) by {
            assert(rest[j] == gs[j + 1]);
        }
        assert(s.subrange(f1, f1 + r.len()) =~= r) by {
            assert forall|x: int| 0 <= x < r.len() implies s.subrange(f1, f1 + r.len())[x] == r[x] by {
                assert(s.subrange(f1, f1 + r.len())[x] == s.subrange(pos, pos + t.len())[head.len()
                    + g.len() + x]);
                assert(t[head.len() + g.len() + x] == r[x]);
            }
        }
        lemma_read_group_run(s, f1, i + 1, limit, rest, true);
    }
}

/// An IPv6 address written with `::` for a run of zero groups: groups of one
/// to four hexadecimal digits joined by `:`, then `::`, then more such groups,
/// seven groups at most in all, is an IPv6 address literal (`::1`, `fe80::1`,
/// `1::`, `::`).
pub proof fn lemma_ipv6_compressed_form(left: Seq<Seq<char>>, right: Seq<Seq<char>>)
    requires
        left.len() + right.len() <= 7,
        forall|i: int| 0 <= i < left.len() ==> is_hex_group(#[trigger] left[i]),
        forall|i: int| 0 <= i < right.len() ==> is_hex_group(#[trigger] right[i]),
    ensures
        crate::ip::ip_literal_kind(colon_join(left) + seq![':', ':'] + colon_join(right)) == Some(
            crate::ip::IpVersion::V6,
        ),
{
    let l = colon_join(left);
    let r = colon_join(right);
    let s = l + seq![':', ':'] + r;
    let f = l.len() as int;
    lemma_prefixed_groups_no_dot(left, false);
    lemma_prefixed_groups_no_dot(right, false);
    assert(no_dot(seq![':', ':']));
    lemma_concat_no_dot(l, seq![':', ':']);
    lemma_concat_no_dot(l + seq![':', ':'], r);
    assert(s.subrange(0, f) =~= l);
    assert(s[f] == ':' && s[f + 1] == ':');
    lemma_read_group_run(s, 0, 0, 8, left, false);
    assert(s.subrange(f + 2, f + 2 + r.len()) =~= r);
    lemma_read_group_run(s, f + 2, 0, (7 - left.len()) as nat, right, false);
    lemma_no_ipv4_without_dot(s, 0);
}

/// With IP address literals supported, an IPv6 address written with `::`
/// (see [`lemma_ipv6_compressed_form`]) in brackets, within the length limit,
/// parses as that IP address: `[::1]` is the address `::1`.
pub proof fn lemma_ipv6_compressed_domain_accepted(
    left: Seq<Seq<char>>,
    right: Seq<Seq<char>>,
    o: DomainValidationOptions,
)
    requires
        left.len() + right.len() <= 7,
        forall|i: int| 0 <= i < left.len() ==> is_hex_group(#[trigger] left[i]),
        forall|i: int| 0 <= i < right.len() ==> is_hex_group(#[trigger] right[i]),
        o.domain_support == crate::options::DomainSupport::IpAddressAndHostName
            || o.domain_support == crate::options::DomainSupport::All,
        utf8_len(seq!['['] + (colon_join(left) + seq![':', ':'] + colon_join(right)) + seq![']'])
            <= o.max_length,
    ensures
        parse_domain_spec(
            seq!['['] + (colon_join(left) + seq![':', ':'] + colon_join(right)) + seq![']'],
            o,
        ) == Ok::<DomainView, DomainErrorView>(
            DomainView {
                domain_type: DomainType::IpAddress,
                address: colon_join(left) + seq![':', ':'] + colon_join(right),
            },
        ),
{
    let q = colon_join(left) + seq![':', ':'] + colon_join(right);
    let t = seq!['['] + q + seq![']'];
    lemma_ipv6_compressed_form(left, right);
    assert(t[0] == '[');
    assert(t.last() == ']');
    lemma_clean_keeps(t, o.trim_whitespace, o.comments);
    assert(crate::domain::normalize_domain_text(t, o) == t);
    let addr = t.subrange(1, t.len() - 1);
    assert(addr =~= q);
    lemma_prefixed_groups_no_dot(left, false);
    if left.len() > 0 {
        assert(is_hex_group(left[0]));
        assert(colon_join(left)[0] == left[0][0]);
        assert(is_hex_char(left[0][0]));
    }
    assert(q[0] != 'I');
    if addr.len() >= 5 {
        assert(addr.take(5)[0] == q[0]);
        assert(addr.take(5) != crate::domain::ipv6_tag());
    }
}

} // verus!
