//! Character classes, UTF-8 lengths, whitespace trimming and searches over
//! character sequences, shared by the local-part and domain validators.
//!
//! Strings are modelled by their `Seq<char>` view. Executable code works on a
//! `Vec<char>` copy of the input and on index ranges into it.
use vstd::prelude::*;
use vstd::utf8::*;

verus! {

// ---------------------------------------------------------------------------
// Character classes
// ---------------------------------------------------------------------------

/// The Unicode `White_Space` property: the characters that `char::is_whitespace`
/// and `str::trim` treat as whitespace.
pub open spec fn is_whitespace_char(c: char) -> bool {
    ||| ('\t' <= c && c <= '\r')
    ||| c == ' '
    ||| c == '\u{85}'
    ||| c == '\u{a0}'
    ||| c == '\u{1680}'
    ||| ('\u{2000}' <= c && c <= '\u{200a}')
    ||| c == '\u{2028}'
    ||| c == '\u{2029}'
    ||| c == '\u{202f}'
    ||| c == '\u{205f}'
    ||| c == '\u{3000}'
}

/// ASCII letters and digits.
pub open spec fn is_ascii_alnum(c: char) -> bool {
    ||| ('0' <= c && c <= '9')
    ||| ('A' <= c && c <= 'Z')
    ||| ('a' <= c && c <= 'z')
}

/// Characters above the ASCII range, accepted when UTF-8 text is allowed.
pub open spec fn is_beyond_ascii(c: char) -> bool {
    c > '\u{7f}'
}

pub(crate) fn is_whitespace(c: char) -> (b: bool)
    ensures
        b == is_whitespace_char(c),
{
    ('\t' <= c && c <= '\r') || c == ' ' || c == '\u{85}' || c == '\u{a0}' || c == '\u{1680}'
        || ('\u{2000}' <= c && c <= '\u{200a}') || c == '\u{2028}' || c == '\u{2029}' || c
        == '\u{202f}' || c == '\u{205f}' || c == '\u{3000}'
}

pub(crate) fn is_alnum(c: char) -> (b: bool)
    ensures
        b == is_ascii_alnum(c),
{
    ('0' <= c && c <= '9') || ('A' <= c && c <= 'Z') || ('a' <= c && c <= 'z')
}

// ---------------------------------------------------------------------------
// UTF-8 lengths
// ---------------------------------------------------------------------------

/// Length in bytes of the UTF-8 encoding of `s`: what `str::len` reports.
pub open spec fn utf8_len(s: Seq<char>) -> nat {
    encode_utf8(s).len()
}

/// Number of bytes of the UTF-8 encoding of one character.
pub open spec fn char_width(c: char) -> nat {
    if (c as u32) <= 0x7f {
        1
    } else if (c as u32) <= 0x7ff {
        2
    } else if (c as u32) <= 0xffff {
        3
    } else {
        4
    }
}

/// Byte offset at which the character with index `k` starts in `s`.
pub open spec fn byte_offset(s: Seq<char>, k: int) -> nat {
    utf8_len(s.take(k))
}

pub proof fn lemma_encode_scalar_len(c: char)
    ensures
        encode_scalar(c as u32).len() == char_width(c),
{
    char_is_scalar(c);
}

pub proof fn lemma_encode_utf8_concat(a: Seq<char>, b: Seq<char>)
    ensures
        encode_utf8(a + b) == encode_utf8(a) + encode_utf8(b),
    decreases a.len(),
{
    if a.len() == 0 {
        assert(a + b =~= b);
        assert(encode_utf8(a) =~= Seq::<u8>::empty());
        assert(encode_utf8(a) + encode_utf8(b) =~= encode_utf8(b));
    } else {
        lemma_encode_utf8_concat(a.drop_first(), b);
        assert((a + b).drop_first() =~= a.drop_first() + b);
        assert((a + b)[0] == a[0]);
        assert(encode_utf8(a + b) =~= encode_scalar(a[0] as u32) + encode_utf8(a.drop_first() + b));
        assert(encode_utf8(a) =~= encode_scalar(a[0] as u32) + encode_utf8(a.drop_first()));
    }
}

pub proof fn lemma_utf8_len_concat(a: Seq<char>, b: Seq<char>)
    ensures
        utf8_len(a + b) == utf8_len(a) + utf8_len(b),
{
    lemma_encode_utf8_concat(a, b);
}

pub proof fn lemma_utf8_len_single(c: char)
    ensures
        utf8_len(seq![c]) == char_width(c),
{
    lemma_encode_scalar_len(c);
    assert(seq![c].drop_first() =~= Seq::<char>::empty());
    assert(encode_utf8(Seq::<char>::empty()) =~= Seq::<u8>::empty());
    assert(encode_utf8(seq![c]) =~= encode_scalar(c as u32));
}

/// The byte offset of the next character is that of the current one plus its width.
pub proof fn lemma_byte_offset_step(s: Seq<char>, k: int)
    requires
        0 <= k < s.len(),
    ensures
        byte_offset(s, k + 1) == byte_offset(s, k) + char_width(s[k]),
{
    assert(s.take(k + 1) =~= s.take(k) + seq![s[k]]);
    lemma_utf8_len_concat(s.take(k), seq![s[k]]);
    lemma_utf8_len_single(s[k]);
}

/// A prefix is never longer in bytes than the whole sequence.
pub proof fn lemma_byte_offset_bound(s: Seq<char>, k: int)
    requires
        0 <= k <= s.len(),
    ensures
        byte_offset(s, k) <= utf8_len(s),
{
    assert(s =~= s.take(k) + s.skip(k));
    lemma_utf8_len_concat(s.take(k), s.skip(k));
}

/// The first character starts at byte zero.
pub proof fn lemma_byte_offset_zero(s: Seq<char>)
    ensures
        byte_offset(s, 0) == 0,
{
    assert(s.take(0) =~= Seq::<char>::empty());
    assert(encode_utf8(Seq::<char>::empty()) =~= Seq::<u8>::empty());
}

/// A sub-range is never longer in bytes than the whole sequence.
pub proof fn lemma_utf8_len_subrange(s: Seq<char>, lo: int, hi: int)
    requires
        0 <= lo <= hi <= s.len(),
    ensures
        utf8_len(s.subrange(lo, hi)) <= utf8_len(s),
{
    assert(s =~= s.take(lo) + s.subrange(lo, hi) + s.skip(hi));
    lemma_utf8_len_concat(s.take(lo) + s.subrange(lo, hi), s.skip(hi));
    lemma_utf8_len_concat(s.take(lo), s.subrange(lo, hi));
}

pub(crate) fn char_utf8_width(c: char) -> (w: usize)
    ensures
        w == char_width(c),
{
    let u: u32 = c as u32;
    if u <= 0x7f {
        1
    } else if u <= 0x7ff {
        2
    } else if u <= 0xffff {
        3
    } else {
        4
    }
}

/// Byte length of the characters `cs[lo..hi]`.
pub(crate) fn utf8_len_of(cs: &Vec<char>, lo: usize, hi: usize) -> (n: usize)
    requires
        lo <= hi <= cs@.len(),
        utf8_len(cs@) <= usize::MAX,
    ensures
        n == utf8_len(cs@.subrange(lo as int, hi as int)),
{
    let ghost sub = cs@.subrange(lo as int, hi as int);
    proof {
        lemma_utf8_len_subrange(cs@, lo as int, hi as int);
        lemma_byte_offset_zero(sub);
    }
    let mut n: usize = 0;
    let mut k: usize = lo;
    while k < hi
        invariant
            lo <= k <= hi <= cs@.len(),
            sub == cs@.subrange(lo as int, hi as int),
            utf8_len(sub) <= utf8_len(cs@) <= usize::MAX,
            n == byte_offset(sub, k - lo),
        decreases hi - k,
    {
        proof {
            lemma_byte_offset_step(sub, k - lo);
            lemma_byte_offset_bound(sub, k - lo + 1);
        }
        let w = char_utf8_width(cs[k]);
        n = n + w;
        k = k + 1;
    }
    assert(sub.take(sub.len() as int) =~= sub);
    n
}

// ---------------------------------------------------------------------------
// Conversions between `str` and character vectors
// ---------------------------------------------------------------------------

broadcast use vstd::slice::group_slice_axioms;

/// The length of `s` in bytes; it shows in particular that this length fits in a `usize`.
pub(crate) fn str_byte_len(s: &str) -> (n: usize)
    ensures
        n == utf8_len(s@),
{
    s.as_bytes().len()
}

/// A copy of the characters `cs[lo..hi]`.
pub(crate) fn sub_vec(cs: &Vec<char>, lo: usize, hi: usize) -> (v: Vec<char>)
    requires
        lo <= hi <= cs@.len(),
    ensures
        v@ == cs@.subrange(lo as int, hi as int),
{
    let mut v: Vec<char> = Vec::new();
    let mut k = lo;
    while k < hi
        invariant
            lo <= k <= hi <= cs@.len(),
            v@ == cs@.subrange(lo as int, k as int),
        decreases hi - k,
    {
        v.push(cs[k]);
        k = k + 1;
        assert(v@ =~= cs@.subrange(lo as int, k as int));
    }
    v
}

/// The characters of `s`, in order.
pub(crate) fn chars_of(s: &str) -> (v: Vec<char>)
    ensures
        v@ == s@,
{
    let mut v: Vec<char> = Vec::new();
    for c in it: s.chars()
        invariant
            v@ == it.seq().take(it.index() as int),
            it.seq() == s@,
    {
        v.push(c);
    }
    v
}

// ---------------------------------------------------------------------------
// Whitespace trimming
// ---------------------------------------------------------------------------

/// `s` without its leading whitespace.
pub open spec fn trim_start_chars(s: Seq<char>) -> Seq<char>
    decreases s.len(),
{
    if s.len() > 0 && is_whitespace_char(s[0]) {
        trim_start_chars(s.drop_first())
    } else {
        s
    }
}

/// `s` without its trailing whitespace.
pub open spec fn trim_end_chars(s: Seq<char>) -> Seq<char>
    decreases s.len(),
{
    if s.len() > 0 && is_whitespace_char(s.last()) {
        trim_end_chars(s.drop_last())
    } else {
        s
    }
}

/// `s` without leading or trailing whitespace.
pub open spec fn trim_chars(s: Seq<char>) -> Seq<char> {
    trim_end_chars(trim_start_chars(s))
}

/// The index of the first character of `cs[lo..hi]` that is not whitespace
/// (or `hi`): trimming the start of that range leaves `cs[r..hi]`.
pub(crate) fn skip_leading_whitespace(cs: &Vec<char>, lo: usize, hi: usize) -> (r: usize)
    requires
        lo <= hi <= cs@.len(),
    ensures
        lo <= r <= hi,
        trim_start_chars(cs@.subrange(lo as int, hi as int)) == cs@.subrange(r as int, hi as int),
{
    let mut r = lo;
    while r < hi && is_whitespace(cs[r])
        invariant
            lo <= r <= hi <= cs@.len(),
            trim_start_chars(cs@.subrange(lo as int, hi as int)) == trim_start_chars(
                cs@.subrange(r as int, hi as int),
            ),
        decreases hi - r,
    {
        assert(cs@.subrange(r as int, hi as int).drop_first() =~= cs@.subrange(
            r + 1,
            hi as int,
        ));
        r = r + 1;
    }
    r
}

/// The index just past the last character of `cs[lo..hi]` that is not
/// whitespace (or `lo`): trimming the end of that range leaves `cs[lo..r]`.
pub(crate) fn skip_trailing_whitespace(cs: &Vec<char>, lo: usize, hi: usize) -> (r: usize)
    requires
        lo <= hi <= cs@.len(),
    ensures
        lo <= r <= hi,
        trim_end_chars(cs@.subrange(lo as int, hi as int)) == cs@.subrange(lo as int, r as int),
{
    let mut r = hi;
    while r > lo && is_whitespace(cs[r - 1])
        invariant
            lo <= r <= hi <= cs@.len(),
            trim_end_chars(cs@.subrange(lo as int, hi as int)) == trim_end_chars(
                cs@.subrange(lo as int, r as int),
            ),
        decreases r - lo,
    {
        assert(cs@.subrange(lo as int, r as int).drop_last() =~= cs@.subrange(
            lo as int,
            r - 1,
        ));
        r = r - 1;
    }
    r
}

pub proof fn lemma_trim_start_idempotent(s: Seq<char>)
    ensures
        trim_start_chars(trim_start_chars(s)) == trim_start_chars(s),
    decreases s.len(),
{
    if s.len() > 0 && is_whitespace_char(s[0]) {
        lemma_trim_start_idempotent(s.drop_first());
    }
}

pub proof fn lemma_trim_end_idempotent(s: Seq<char>)
    ensures
        trim_end_chars(trim_end_chars(s)) == trim_end_chars(s),
    decreases s.len(),
{
    if s.len() > 0 && is_whitespace_char(s.last()) {
        lemma_trim_end_idempotent(s.drop_last());
    }
}

/// Trimming the end of a sequence whose first character is not whitespace
/// keeps that first character (or leaves nothing).
pub proof fn lemma_trim_end_keeps_start(s: Seq<char>)
    ensures
        trim_end_chars(s).len() <= s.len(),
        trim_end_chars(s) == s.take(trim_end_chars(s).len() as int),
    decreases s.len(),
{
    if s.len() > 0 && is_whitespace_char(s.last()) {
        lemma_trim_end_keeps_start(s.drop_last());
        let t = trim_end_chars(s.drop_last());
        assert(s.drop_last().take(t.len() as int) =~= s.take(t.len() as int));
    } else {
        assert(s.take(s.len() as int) =~= s);
    }
}

pub proof fn lemma_trim_start_keeps_end(s: Seq<char>)
    ensures
        trim_start_chars(s).len() <= s.len(),
        trim_start_chars(s) == s.skip(s.len() - trim_start_chars(s).len()),
    decreases s.len(),
{
    if s.len() > 0 && is_whitespace_char(s[0]) {
        lemma_trim_start_keeps_end(s.drop_first());
        let t = trim_start_chars(s.drop_first());
        assert(s.drop_first().skip(s.drop_first().len() - t.len()) =~= s.skip(
            s.len() - t.len(),
        ));
    } else {
        assert(s.skip(0) =~= s);
    }
}

/// After trimming the end, the start is still trimmed.
pub proof fn lemma_trim_start_of_trim_end(s: Seq<char>)
    requires
        trim_start_chars(s) == s,
    ensures
        trim_start_chars(trim_end_chars(s)) == trim_end_chars(s),
{
    lemma_trim_end_keeps_start(s);
    let t = trim_end_chars(s);
    if s.len() > 0 && is_whitespace_char(s[0]) {
        lemma_trim_start_keeps_end(s.drop_first());
        assert(false);
    }
    if t.len() > 0 {
        assert(t[0] == s[0]);
    }
}

pub proof fn lemma_trim_idempotent(s: Seq<char>)
    ensures
        trim_chars(trim_chars(s)) == trim_chars(s),
{
    let a = trim_start_chars(s);
    lemma_trim_start_idempotent(s);
    lemma_trim_start_of_trim_end(a);
    lemma_trim_end_idempotent(a);
}

/// The result of trimming starts and ends with a character that is not whitespace.
pub proof fn lemma_trim_chars_ends(s: Seq<char>)
    ensures
        trim_chars(s).len() > 0 ==> !is_whitespace_char(trim_chars(s)[0]) && !is_whitespace_char(
            trim_chars(s).last(),
        ),
{
    lemma_trim_idempotent(s);
    let t = trim_chars(s);
    lemma_trim_start_idempotent(s);
    lemma_trim_start_of_trim_end(trim_start_chars(s));
    lemma_trim_end_idempotent(trim_start_chars(s));
    if t.len() > 0 {
        // trim_start(t) == t and trim_end(t) == t
        assert(trim_start_chars(t) == t);
        assert(trim_end_chars(t) == t);
        if is_whitespace_char(t[0]) {
            assert(trim_start_chars(t) == trim_start_chars(t.drop_first()));
            lemma_trim_start_keeps_end(t.drop_first());
            assert(false);
        }
        if is_whitespace_char(t.last()) {
            assert(trim_end_chars(t) == trim_end_chars(t.drop_last()));
            lemma_trim_end_keeps_start(t.drop_last());
            assert(false);
        }
    }
}

// ---------------------------------------------------------------------------
// Searches
// ---------------------------------------------------------------------------

/// The index in `cs[lo..hi]` (relative to `lo`) of the first occurrence of `c`.
pub(crate) fn find_first(cs: &Vec<char>, lo: usize, hi: usize, c: char) -> (r: Option<usize>)
    requires
        lo <= hi <= cs@.len(),
    ensures
        match r {
            Some(p) => cs@.subrange(lo as int, hi as int).index_of_first(c) == Some(p as int),
            None => cs@.subrange(lo as int, hi as int).index_of_first(c) is None,
        },
{
    let ghost sub = cs@.subrange(lo as int, hi as int);
    proof {
        sub.index_of_first_ensures(c);
    }
    let mut k = lo;
    while k < hi
        invariant
            lo <= k <= hi <= cs@.len(),
            sub == cs@.subrange(lo as int, hi as int),
            forall|j: int| 0 <= j < k - lo ==> sub[j] != c,
            match sub.index_of_first(c) {
                Some(index) => {
                    &&& sub.contains(c)
                    &&& 0 <= index < sub.len()
                    &&& sub[index] == c
                    &&& forall|j: int| 0 <= j < index < sub.len() ==> sub[j] != c
                },
                None => !sub.contains(c),
            },
        decreases hi - k,
    {
        if cs[k] == c {
            assert(sub[k - lo] == c);
            assert(sub.contains(c));
            return Some(k - lo);
        }
        k = k + 1;
    }
    proof {
        if sub.contains(c) {
            let i = choose|i: int| 0 <= i < sub.len() && sub[i] == c;
            assert(sub[i] != c);
        }
    }
    None
}

/// The index in `cs[lo..hi]` (relative to `lo`) of the last occurrence of `c`.
pub(crate) fn find_last(cs: &Vec<char>, lo: usize, hi: usize, c: char) -> (r: Option<usize>)
    requires
        lo <= hi <= cs@.len(),
    ensures
        match r {
            Some(p) => cs@.subrange(lo as int, hi as int).index_of_last(c) == Some(p as int),
            None => cs@.subrange(lo as int, hi as int).index_of_last(c) is None,
        },
{
    let ghost sub = cs@.subrange(lo as int, hi as int);
    proof {
        sub.index_of_last_ensures(c);
    }
    let mut k = hi;
    while k > lo
        invariant
            lo <= k <= hi <= cs@.len(),
            sub == cs@.subrange(lo as int, hi as int),
            forall|j: int| k - lo <= j < sub.len() ==> sub[j] != c,
            match sub.index_of_last(c) {
                Some(index) => {
                    &&& sub.contains(c)
                    &&& 0 <= index < sub.len()
                    &&& sub[index] == c
                    &&& forall|j: int| 0 <= index < j < sub.len() ==> sub[j] != c
                },
                None => !sub.contains(c),
            },
        decreases k - lo,
    {
        if cs[k - 1] == c {
            assert(sub[k - 1 - lo] == c);
            assert(sub.contains(c));
            return Some(k - 1 - lo);
        }
        k = k - 1;
    }
    proof {
        if sub.contains(c) {
            let i = choose|i: int| 0 <= i < sub.len() && sub[i] == c;
            assert(sub[i] != c);
        }
    }
    None
}

} // verus!
