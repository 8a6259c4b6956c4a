//! Recognition of IP address literals, as they stand between the brackets of
//! an address-literal domain (`[127.0.0.1]`, `[IPv6:::1]`).
//!
//! The grammar is the one of the textual forms that `std::net::IpAddr` parses:
//! an IPv4 address is four dot-separated decimal octets (at most three digits,
//! no leading zero, at most 255); an IPv6 address is up to eight colon-separated
//! groups of one to four hexadecimal digits, with at most one `::` standing for
//! one or more groups of zeros, and optionally an embedded IPv4 address in place
//! of its last two groups.
use vstd::prelude::*;
use vstd::string::*;

verus! {

/// Why the text of an address literal is not an IP address: it does not
/// follow the syntax of IP addresses.
#[derive(Debug, Clone, Copy, PartialEq, Eq, Structural)]
pub struct AddrParseError;

impl AddrParseError {
    /// The reason, as a message.
    pub fn to_string(&self) -> (r: String)
        ensures
            r@ == "invalid IP address syntax"@,
    {
        String::from_str("invalid IP address syntax")
    }
}

/// The version of a recognised IP address.
#[derive(Debug, Clone, Copy, PartialEq, Eq, Structural)]
pub enum IpVersion {
    V4,
    V6,
}

/// The value of `c` as a digit in base 10 or 16.
pub open spec fn digit_value(c: char, hex: bool) -> Option<nat> {
    if '0' <= c && c <= '9' {
        Some((c as nat - '0' as nat) as nat)
    } else if hex && 'a' <= c && c <= 'f' {
        Some((c as nat - 'a' as nat + 10) as nat)
    } else if hex && 'A' <= c && c <= 'F' {
        Some((c as nat - 'A' as nat + 10) as nat)
    } else {
        None
    }
}

/// The number of consecutive digits in `s` from position `pos` on.
pub open spec fn digit_run(s: Seq<char>, pos: int, hex: bool) -> nat
    decreases s.len() - pos,
{
    if 0 <= pos < s.len() && digit_value(s[pos], hex) is Some {
        1 + digit_run(s, pos + 1, hex)
    } else {
        0
    }
}

/// The decimal value of the `n` digits of `s` from position `pos` on.
pub open spec fn decimal_value(s: Seq<char>, pos: int, n: nat) -> nat
    decreases n,
{
    if n == 0 {
        0
    } else {
        decimal_value(s, pos, (n - 1) as nat) * 10 + digit_value(s[pos + n - 1], false).unwrap()
    }
}

/// Where a decimal octet starting at `pos` ends: one to three digits, no
/// leading zero, a value of at most 255.
pub open spec fn read_octet(s: Seq<char>, pos: int) -> Option<int> {
    let r = digit_run(s, pos, false);
    if r == 0 || r > 3 || (s[pos] == '0' && r > 1) || decimal_value(s, pos, r) > 255 {
        None
    } else {
        Some(pos + r)
    }
}

/// Where a group of one to four hexadecimal digits starting at `pos` ends.
pub open spec fn read_hex_group(s: Seq<char>, pos: int) -> Option<int> {
    let r = digit_run(s, pos, true);
    if r == 0 || r > 4 {
        None
    } else {
        Some(pos + r)
    }
}

/// Where the `i`-th item of a list separated by `sep` starts, when the
/// previous item ended at `pos`: the first item has no separator before it.
pub open spec fn after_separator(s: Seq<char>, pos: int, i: nat, sep: char) -> Option<int> {
    if i == 0 {
        Some(pos)
    } else if 0 <= pos < s.len() && s[pos] == sep {
        Some(pos + 1)
    } else {
        None
    }
}

/// Where the remaining octets `i..4` of an IPv4 address end.
pub open spec fn read_ipv4_octets(s: Seq<char>, pos: int, i: nat) -> Option<int>
    decreases 4 - i,
{
    if i >= 4 {
        Some(pos)
    } else {
        match after_separator(s, pos, i, '.') {
            Some(q) => match read_octet(s, q) {
                Some(e) => read_ipv4_octets(s, e, i + 1),
                None => None,
            },
            None => None,
        }
    }
}

/// Where an IPv4 address starting at `pos` ends.
pub open spec fn read_ipv4(s: Seq<char>, pos: int) -> Option<int> {
    read_ipv4_octets(s, pos, 0)
}

/// Reads colon-separated IPv6 groups `i..limit` from `pos`: where the reading
/// stopped, how many groups were read, and whether the last two were an
/// embedded IPv4 address.
pub open spec fn read_groups(s: Seq<char>, pos: int, i: nat, limit: nat) -> (int, nat, bool)
    decreases limit - i,
{
    if i >= limit {
        (pos, i, false)
    } else {
        let embedded = if i + 1 < limit {
            match after_separator(s, pos, i, ':') {
                Some(q) => read_ipv4(s, q),
                None => None,
            }
        } else {
            None
        };
        match embedded {
            Some(e) => (e, i + 2, true),
            None => match after_separator(s, pos, i, ':') {
                Some(q) => match read_hex_group(s, q) {
                    Some(e) => read_groups(s, e, i + 1, limit),
                    None => (pos, i, false),
                },
                None => (pos, i, false),
            },
        }
    }
}

/// Whether the whole of `s` is an IPv6 address.
pub open spec fn is_ipv6_text(s: Seq<char>) -> bool {
    let (p, n, embedded) = read_groups(s, 0, 0, 8);
    if n == 8 {
        p == s.len()
    } else if embedded {
        false
    } else if s.len() >= 2 && p < s.len() - 1 && s[p] == ':' && s[p + 1] == ':' {
        read_groups(s, p + 2, 0, (7 - n) as nat).0 == s.len()
    } else {
        false
    }
}

/// The version of the IP address that `s` spells, if it spells one. An IPv4
/// address is tried first; when one is read but does not span the whole text,
/// the text is rejected.
pub open spec fn ip_literal_kind(s: Seq<char>) -> Option<IpVersion> {
    match read_ipv4(s, 0) {
        Some(e) => if e == s.len() {
            Some(IpVersion::V4)
        } else {
            None
        },
        None => if is_ipv6_text(s) {
            Some(IpVersion::V6)
        } else {
            None
        },
    }
}

fn digit_of(c: char, hex: bool) -> (r: Option<u32>)
    ensures
        match r {
            Some(v) => digit_value(c, hex) == Some(v as nat),
            None => digit_value(c, hex) is None,
        },
{
    if '0' <= c && c <= '9' {
        Some((c as u32) - ('0' as u32))
    } else if hex && 'a' <= c && c <= 'f' {
        Some((c as u32) - ('a' as u32) + 10)
    } else if hex && 'A' <= c && c <= 'F' {
        Some((c as u32) - ('A' as u32) + 10)
    } else {
        None
    }
}

fn count_digits(s: &Vec<char>, pos: usize, hex: bool) -> (r: usize)
    requires
        pos <= s@.len(),
    ensures
        r == digit_run(s@, pos as int, hex),
        pos + r <= s@.len(),
{
    let mut k = pos;
    while k < s.len() && digit_of(s[k], hex).is_some()
        invariant
            pos <= k <= s@.len(),
            digit_run(s@, pos as int, hex) == (k - pos) + digit_run(s@, k as int, hex),
        decreases s@.len() - k,
    {
        k = k + 1;
    }
    k - pos
}

fn octet_end(s: &Vec<char>, pos: usize) -> (r: Option<usize>)
    requires
        pos <= s@.len(),
    ensures
        match r {
            Some(e) => read_octet(s@, pos as int) == Some(e as int) && e <= s@.len(),
            None => read_octet(s@, pos as int) is None,
        },
{
    let len = s.len();
    let n = count_digits(s, pos, false);
    if n == 0 || n > 3 || (s[pos] == '0' && n > 1) {
        return None;
    }
    proof {
        lemma_digit_run_digits(s@, pos as int, false);
    }
    let mut value: u32 = 0;
    let mut k: usize = 0;
    while k < n
        invariant
            n <= 3,
            len == s@.len(),
            pos + n <= s@.len(),
            n == digit_run(s@, pos as int, false),
            k <= n,
            value == decimal_value(s@, pos as int, k as nat),
            value < 1000,
            forall|j: int| pos <= j < pos + n ==> digit_value(#[trigger] s@[j], false) is Some,
        decreases n - k,
    {
        let d = digit_of(s[pos + k], false);
        match d {
            Some(v) => {
                assert(v <= 9);
                value = value * 10 + v;
                assert(value == decimal_value(s@, pos as int, (k + 1) as nat));
            },
            None => {
                assert(false);
            },
        }
        k = k + 1;
        proof {
            lemma_decimal_value_bound(s@, pos as int, k as nat);
        }
    }
    if value > 255 {
        None
    } else {
        Some(pos + n)
    }
}

pub proof fn lemma_digit_run_digits(s: Seq<char>, pos: int, hex: bool)
    requires
        0 <= pos,
    ensures
        forall|j: int|
            pos <= j < pos + digit_run(s, pos, hex) ==> digit_value(#[trigger] s[j], hex) is Some,
        pos + digit_run(s, pos, hex) <= s.len() || digit_run(s, pos, hex) == 0,
    decreases s.len() - pos,
{
    if 0 <= pos < s.len() && digit_value(s[pos], hex) is Some {
        lemma_digit_run_digits(s, pos + 1, hex);
    }
}

proof fn lemma_decimal_value_bound(s: Seq<char>, pos: int, k: nat)
    requires
        k <= 3,
        forall|j: int| pos <= j < pos + k ==> digit_value(#[trigger] s[j], false) is Some,
    ensures
        decimal_value(s, pos, k) < 1000,
        k <= 2 ==> decimal_value(s, pos, k) < 100,
        k <= 1 ==> decimal_value(s, pos, k) < 10,
    decreases k,
{
    if k > 0 {
        lemma_decimal_value_bound(s, pos, (k - 1) as nat);
        assert(digit_value(s[pos + k - 1], false) is Some);
    }
}

fn hex_group_end(s: &Vec<char>, pos: usize) -> (r: Option<usize>)
    requires
        pos <= s@.len(),
    ensures
        match r {
            Some(e) => read_hex_group(s@, pos as int) == Some(e as int) && e <= s@.len(),
            None => read_hex_group(s@, pos as int) is None,
        },
{
    let len = s.len();
    let n = count_digits(s, pos, true);
    if n == 0 || n > 4 {
        None
    } else {
        Some(pos + n)
    }
}

fn separator_end(s: &Vec<char>, pos: usize, i: usize, sep: char) -> (r: Option<usize>)
    requires
        pos <= s@.len(),
    ensures
        match r {
            Some(q) => after_separator(s@, pos as int, i as nat, sep) == Some(q as int) && q
                <= s@.len(),
            None => after_separator(s@, pos as int, i as nat, sep) is None,
        },
{
    if i == 0 {
        Some(pos)
    } else if pos < s.len() && s[pos] == sep {
        Some(pos + 1)
    } else {
        None
    }
}

fn ipv4_end(s: &Vec<char>, pos: usize) -> (r: Option<usize>)
    requires
        pos <= s@.len(),
    ensures
        match r {
            Some(e) => read_ipv4(s@, pos as int) == Some(e as int) && e <= s@.len(),
            None => read_ipv4(s@, pos as int) is None,
        },
{
    let mut p = pos;
    let mut i: usize = 0;
    while i < 4
        invariant
            i <= 4,
            p <= s@.len(),
            read_ipv4(s@, pos as int) == read_ipv4_octets(s@, p as int, i as nat),
        decreases 4 - i,
    {
        match separator_end(s, p, i, '.') {
            Some(q) => match octet_end(s, q) {
                Some(e) => {
                    p = e;
                },
                None => {
                    return None;
                },
            },
            None => {
                return None;
            },
        }
        i = i + 1;
    }
    Some(p)
}

fn groups_end(s: &Vec<char>, pos: usize, limit: usize) -> (r: (usize, usize, bool))
    requires
        pos <= s@.len(),
        limit <= 8,
    ensures
        read_groups(s@, pos as int, 0, limit as nat) == (r.0 as int, r.1 as nat, r.2),
        r.0 <= s@.len(),
{
    let mut p = pos;
    let mut i: usize = 0;
    while i < limit
        invariant
            i <= limit <= 8,
            p <= s@.len(),
            read_groups(s@, pos as int, 0, limit as nat) == read_groups(
                s@,
                p as int,
                i as nat,
                limit as nat,
            ),
        decreases limit - i,
    {
        let embedded = if i + 1 < limit {
            match separator_end(s, p, i, ':') {
                Some(q) => ipv4_end(s, q),
                None => None,
            }
        } else {
            None
        };
        match embedded {
            Some(e) => {
                return (e, i + 2, true);
            },
            None => {},
        }
        match separator_end(s, p, i, ':') {
            Some(q) => match hex_group_end(s, q) {
                Some(e) => {
                    p = e;
                },
                None => {
                    return (p, i, false);
                },
            },
            None => {
                return (p, i, false);
            },
        }
        i = i + 1;
    }
    (p, i, false)
}

fn is_ipv6(s: &Vec<char>) -> (b: bool)
    ensures
        b == is_ipv6_text(s@),
{
    let (p, n, embedded) = groups_end(s, 0, 8);
    proof {
        lemma_read_groups_count(s@, 0, 0, 8);
    }
    if n == 8 {
        p == s.len()
    } else if embedded {
        false
    } else if s.len() >= 2 && p < s.len() - 1 && s[p] == ':' && s[p + 1] == ':' {
        let (q, _, _) = groups_end(s, p + 2, 7 - n);
        q == s.len()
    } else {
        false
    }
}

proof fn lemma_read_groups_count(s: Seq<char>, pos: int, i: nat, limit: nat)
    requires
        i <= limit,
    ensures
        read_groups(s, pos, i, limit).1 <= limit,
        i <= read_groups(s, pos, i, limit).1,
    decreases limit - i,
{
    if i < limit {
        match after_separator(s, pos, i, ':') {
            Some(q) => match read_hex_group(s, q) {
                Some(e) => lemma_read_groups_count(s, e, i + 1, limit),
                None => {},
            },
            None => {},
        }
    }
}

/// The characters that an IP address literal is written with: hexadecimal
/// digits, `:` and `.`.
pub open spec fn is_ip_literal_char(c: char) -> bool {
    ||| digit_value(c, true) is Some
    ||| c == ':'
    ||| c == '.'
}

/// The characters of `s` from `lo` to `hi` are all IP literal characters.
pub open spec fn ip_chars_between(s: Seq<char>, lo: int, hi: int) -> bool {
    forall|j: int| lo <= j < hi ==> is_ip_literal_char(#[trigger] s[j])
}

proof fn lemma_octet_chars(s: Seq<char>, pos: int)
    requires
        0 <= pos,
        read_octet(s, pos) is Some,
    ensures
        pos < read_octet(s, pos)->Some_0 <= s.len(),
        ip_chars_between(s, pos, read_octet(s, pos)->Some_0),
{
    lemma_digit_run_digits(s, pos, false);
}

proof fn lemma_hex_group_chars(s: Seq<char>, pos: int)
    requires
        0 <= pos,
        read_hex_group(s, pos) is Some,
    ensures
        pos < read_hex_group(s, pos)->Some_0 <= s.len(),
        ip_chars_between(s, pos, read_hex_group(s, pos)->Some_0),
{
    lemma_digit_run_digits(s, pos, true);
    assert forall|j: int| pos <= j < read_hex_group(s, pos)->Some_0 implies is_ip_literal_char(
        #[trigger] s[j],
    ) by {
        assert(digit_value(s[j], true) is Some);
    }
}

proof fn lemma_ipv4_octets_chars(s: Seq<char>, pos: int, i: nat)
    requires
        0 <= pos <= s.len(),
        read_ipv4_octets(s, pos, i) is Some,
    ensures
        pos <= read_ipv4_octets(s, pos, i)->Some_0 <= s.len(),
        ip_chars_between(s, pos, read_ipv4_octets(s, pos, i)->Some_0),
    decreases 4 - i,
{
    if i < 4 {
        let q = after_separator(s, pos, i, '.')->Some_0;
        lemma_octet_chars(s, q);
        let e = read_octet(s, q)->Some_0;
        lemma_ipv4_octets_chars(s, e, i + 1);
        let f = read_ipv4_octets(s, e, i + 1)->Some_0;
        assert forall|j: int| pos <= j < f implies is_ip_literal_char(#[trigger] s[j]) by {
            if j < q {
                assert(s[j] == '.');
            } else if j < e {
                assert(ip_chars_between(s, q, e));
            } else {
                assert(ip_chars_between(s, e, f));
            }
        }
    }
}

proof fn lemma_read_groups_chars(s: Seq<char>, pos: int, i: nat, limit: nat)
    requires
        0 <= pos <= s.len(),
    ensures
        pos <= read_groups(s, pos, i, limit).0 <= s.len(),
        ip_chars_between(s, pos, read_groups(s, pos, i, limit).0),
    decreases limit - i,
{
    if i < limit {
        let embedded = if i + 1 < limit {
            match after_separator(s, pos, i, ':') {
                Some(q) => read_ipv4(s, q),
                None => None,
            }
        } else {
            None
        };
        match embedded {
            Some(e) => {
                let q = after_separator(s, pos, i, ':')->Some_0;
                lemma_ipv4_octets_chars(s, q, 0);
                assert forall|j: int| pos <= j < e implies is_ip_literal_char(#[trigger] s[j]) by {
                    if j < q {
                        assert(s[j] == ':');
                    } else {
                        assert(ip_chars_between(s, q, e));
                    }
                }
            },
            None => match after_separator(s, pos, i, ':') {
                Some(q) => match read_hex_group(s, q) {
                    Some(e) => {
                        lemma_hex_group_chars(s, q);
                        lemma_read_groups_chars(s, e, i + 1, limit);
                        let f = read_groups(s, e, i + 1, limit).0;
                        assert forall|j: int| pos <= j < f implies is_ip_literal_char(
                            #[trigger] s[j],
                        ) by {
                            if j < q {
                                assert(s[j] == ':');
                            } else if j < e {
                                assert(ip_chars_between(s, q, e));
                            } else {
                                assert(ip_chars_between(s, e, f));
                            }
                        }
                    },
                    None => {},
                },
                None => {},
            },
        }
    }
}

/// An IP address literal is written with hexadecimal digits, `:` and `.` only.
pub proof fn lemma_ip_literal_chars(s: Seq<char>)
    requires
        ip_literal_kind(s) is Some,
    ensures
        ip_chars_between(s, 0, s.len() as int),
{
    match read_ipv4(s, 0) {
        Some(e) => {
            lemma_ipv4_octets_chars(s, 0, 0);
        },
        None => {
            lemma_read_groups_chars(s, 0, 0, 8);
            let (p, n, embedded) = read_groups(s, 0, 0, 8);
            if n != 8 {
                lemma_read_groups_chars(s, p + 2, 0, (7 - n) as nat);
                let q = read_groups(s, p + 2, 0, (7 - n) as nat).0;
                assert forall|j: int| 0 <= j < s.len() implies is_ip_literal_char(#[trigger] s[j]) by {
                    if j < p {
                        assert(ip_chars_between(s, 0, p));
                    } else if j < p + 2 {
                        assert(s[j] == ':');
                    } else {
                        assert(ip_chars_between(s, p + 2, q));
                    }
                }
            }
        },
    }
}

/// The version of the IP address that the characters `cs` spell, if any.
pub(crate) fn ip_literal_version(cs: &Vec<char>) -> (r: Option<IpVersion>)
    ensures
        r == ip_literal_kind(cs@),
{
    match ipv4_end(cs, 0) {
        Some(e) => if e == cs.len() {
            Some(IpVersion::V4)
        } else {
            None
        },
        None => if is_ipv6(cs) {
            Some(IpVersion::V6)
        } else {
            None
        },
    }
}

} // verus!
