//! Sequence search and splitting, shared by the framing layer and the text parsers.
use vstd::prelude::*;
use vstd::utf8::{
    valid_utf8, decode_utf8, encode_utf8_decode_utf8, encode_utf8, encode_scalar, is_ascii_chars,
    has_width_1_encoding, has_width_2_encoding, has_width_3_encoding, leading_byte_width_2,
    leading_byte_width_3, leading_byte_width_4,
};
use vstd::string::StringSliceAdditionalSpecFns;

verus! {

/// `needle` occurs in `hay` starting at index `i`.
pub open spec fn occurs_at<T>(hay: Seq<T>, needle: Seq<T>, i: int) -> bool {
    &&& 0 <= i
    &&& i + needle.len() <= hay.len()
    &&& hay.subrange(i, i + needle.len()) == needle
}

/// The first index at or after `start` where `needle` occurs in `hay`.
pub open spec fn find_from<T>(hay: Seq<T>, needle: Seq<T>, start: int) -> Option<int>
    decreases hay.len() + 1 - start,
{
    if start < 0 || start + needle.len() > hay.len() {
        None
    } else if occurs_at(hay, needle, start) {
        Some(start)
    } else {
        find_from(hay, needle, start + 1)
    }
}

/// `hay` holds `needle` somewhere.
pub open spec fn contains_seq<T>(hay: Seq<T>, needle: Seq<T>) -> bool {
    find_from(hay, needle, 0) is Some
}

/// The pieces of `hay[start..]` between the non-overlapping occurrences of `sep`,
/// found left to right (the behaviour of `str::split` with a string pattern).
pub open spec fn split_from<T>(hay: Seq<T>, sep: Seq<T>, start: int) -> Seq<Seq<T>>
    decreases hay.len() + 1 - start,
{
    if sep.len() == 0 || start < 0 || start > hay.len() {
        seq![hay.subrange(start, hay.len() as int)]
    } else {
        match find_from(hay, sep, start) {
            Some(p) => {
                proof {
                    lemma_find_from_bounds(hay, sep, start);
                }
                seq![hay.subrange(start, p)] + split_from(hay, sep, p + sep.len())
            },
            None => seq![hay.subrange(start, hay.len() as int)],
        }
    }
}

/// All pieces of `hay` separated by `sep`.
pub open spec fn split_seq<T>(hay: Seq<T>, sep: Seq<T>) -> Seq<Seq<T>> {
    split_from(hay, sep, 0)
}

/// What `find_from` returns is an occurrence, the first one at or after `start`.
pub proof fn lemma_find_from_bounds<T>(hay: Seq<T>, needle: Seq<T>, start: int)
    requires
        0 <= start,
    ensures
        match find_from(hay, needle, start) {
            Some(p) => start <= p && occurs_at(hay, needle, p) && forall|q: int|
                start <= q < p ==> !occurs_at(hay, needle, q),
            None => forall|q: int| start <= q ==> !occurs_at(hay, needle, q),
        },
    decreases hay.len() + 1 - start,
{
    if start < 0 || start + needle.len() > hay.len() {
    } else if occurs_at(hay, needle, start) {
    } else {
        lemma_find_from_bounds(hay, needle, start + 1);
    }
}


/// Where `needle` occurs nowhere from `start` on, it is not found.
pub proof fn lemma_find_none<T>(hay: Seq<T>, needle: Seq<T>, start: int)
    requires
        0 <= start,
        forall|q: int| start <= q ==> !occurs_at(hay, needle, q),
    ensures
        find_from(hay, needle, start) is None,
    decreases hay.len() + 1 - start,
{
    if start + needle.len() <= hay.len() {
        lemma_find_none(hay, needle, start + 1);
    }
}

/// Searching a suffix of `hay` is searching `hay` from the suffix's offset.
pub proof fn lemma_find_from_skip<T>(hay: Seq<T>, needle: Seq<T>, s: int, k: int)
    requires
        0 <= s <= hay.len(),
        0 <= k,
    ensures
        find_from(hay.skip(s), needle, k) == match find_from(hay, needle, s + k) {
            Some(p) => Some(p - s),
            None => None::<int>,
        },
    decreases hay.len() + 1 - (s + k),
{
    let tail = hay.skip(s);
    if s + k + needle.len() > hay.len() {
    } else {
        assert(tail.subrange(k, k + needle.len()) =~= hay.subrange(s + k, s + k + needle.len()));
        if !occurs_at(hay, needle, s + k) {
            lemma_find_from_skip(hay, needle, s, k + 1);
        }
    }
}

/// Splitting a suffix of `hay` gives the pieces of `hay` from the suffix's offset.
pub proof fn lemma_split_from_skip<T>(hay: Seq<T>, sep: Seq<T>, s: int, k: int)
    requires
        0 <= s <= hay.len(),
        0 <= k <= hay.len() - s,
    ensures
        split_from(hay.skip(s), sep, k) == split_from(hay, sep, s + k),
    decreases hay.len() + 1 - (s + k),
{
    let tail = hay.skip(s);
    lemma_find_from_skip(hay, sep, s, k);
    assert(tail.subrange(k, tail.len() as int) =~= hay.subrange(s + k, hay.len() as int));
    if sep.len() > 0 {
        match find_from(hay, sep, s + k) {
            Some(p) => {
                lemma_find_from_bounds(hay, sep, s + k);
                assert(tail.subrange(k, p - s) =~= hay.subrange(s + k, p));
                lemma_split_from_skip(hay, sep, s, p - s + sep.len());
            },
            None => {},
        }
    }
}

/// An occurrence inside `a` is an occurrence inside `a + b`, and the first
/// occurrence in `a` stays the first one in `a + b`.
pub proof fn lemma_find_from_append<T>(a: Seq<T>, b: Seq<T>, needle: Seq<T>, start: int)
    requires
        0 <= start,
        find_from(a, needle, start) is Some,
    ensures
        find_from(a + b, needle, start) == find_from(a, needle, start),
    decreases a.len() + 1 - start,
{
    assert(start + needle.len() <= a.len()) by {
        lemma_find_from_bounds(a, needle, start);
    }
    assert((a + b).subrange(start, start + needle.len()) =~= a.subrange(start, start + needle.len()));
    if !occurs_at(a, needle, start) {
        lemma_find_from_append(a, b, needle, start + 1);
    }
}

/// The pieces at and after `start` have no separator inside the last one.
pub proof fn lemma_split_from_last_clean<T>(hay: Seq<T>, sep: Seq<T>, start: int)
    requires
        0 <= start <= hay.len(),
        sep.len() > 0,
    ensures
        split_from(hay, sep, start).len() >= 1,
        !contains_seq(split_from(hay, sep, start).last(), sep),
    decreases hay.len() + 1 - start,
{
    lemma_find_from_bounds(hay, sep, start);
    match find_from(hay, sep, start) {
        Some(p) => {
            lemma_split_from_last_clean(hay, sep, p + sep.len());
            let rest = split_from(hay, sep, p + sep.len());
            assert((seq![hay.subrange(start, p)] + rest).last() == rest.last());
        },
        None => {
            let piece = hay.subrange(start, hay.len() as int);
            assert(piece =~= hay.skip(start));
            lemma_find_from_skip(hay, sep, start, 0);
        },
    }
}

/// Splitting `a + b` splits `a`, then carries the unfinished last piece of `a` into `b`.
pub proof fn lemma_split_from_append<T>(a: Seq<T>, b: Seq<T>, sep: Seq<T>, start: int)
    requires
        0 <= start <= a.len(),
        sep.len() > 0,
    ensures
        split_from(a + b, sep, start) == split_from(a, sep, start).drop_last() + split_seq(
            split_from(a, sep, start).last() + b,
            sep,
        ),
    decreases a.len() + 1 - start,
{
    let ab = a + b;
    lemma_find_from_bounds(a, sep, start);
    match find_from(a, sep, start) {
        Some(p) => {
            lemma_find_from_append(a, b, sep, start);
            assert(ab.subrange(start, p) =~= a.subrange(start, p));
            lemma_split_from_append(a, b, sep, p + sep.len());
            lemma_split_from_last_clean(a, sep, p + sep.len());
            let rest = split_from(a, sep, p + sep.len());
            let head = seq![a.subrange(start, p)];
            assert((head + rest).drop_last() =~= head + rest.drop_last());
            assert((head + rest).last() == rest.last());
            assert(split_from(ab, sep, start) == head + split_from(ab, sep, p + sep.len()));
            assert(split_from(ab, sep, start) =~= (head + rest).drop_last() + split_seq(
                rest.last() + b,
                sep,
            ));
        },
        None => {
            let piece = a.subrange(start, a.len() as int);
            assert(piece + b =~= ab.skip(start));
            lemma_split_from_skip(ab, sep, start, 0);
            assert(seq![piece].drop_last() + split_seq(piece + b, sep) =~= split_seq(piece + b, sep));
        },
    }
}

/// Splitting a piece with no separator in it gives the piece alone.
pub proof fn lemma_split_clean<T>(hay: Seq<T>, sep: Seq<T>)
    requires
        !contains_seq(hay, sep),
    ensures
        split_seq(hay, sep) == seq![hay],
{
    assert(hay.subrange(0, hay.len() as int) =~= hay);
}


/// Decode `bytes` as UTF-8 text (`std::str::from_utf8`): `None` exactly when the
/// bytes are not valid UTF-8, otherwise the string whose encoding is `bytes`.
#[verifier::external_body]
pub fn utf8_str(bytes: &[u8]) -> (r: Option<&str>)
    ensures
        r is Some <==> valid_utf8(bytes@),
        r matches Some(s) ==> s.spec_bytes() == bytes@,
{
    std::str::from_utf8(bytes).ok()
}

/// The characters of `s`, in order.
pub fn str_chars(s: &str) -> (r: Vec<char>)
    ensures
        r@ == s@,
{
    broadcast use vstd::string::axiom_spec_iter;

    let mut out: Vec<char> = Vec::new();
    for c in it: s.chars()
        invariant
            it.seq() == s@,
            out@ == it.seq().take(it.index() as int),
    {
        assert(it.seq().take(it.index() + 1) =~= out@.push(c));
        out.push(c);
    }
    assert(s@.take(s@.len() as int) =~= s@);
    out
}

/// The string made of `chars` (`String::from_iter`).
#[verifier::external_body]
pub fn string_from_chars(chars: &[char]) -> (r: String)
    ensures
        r@ == chars@,
{
    chars.iter().collect()
}

/// The text of valid UTF-8 `bytes`, as characters.
pub fn utf8_chars(bytes: &[u8]) -> (r: Option<Vec<char>>)
    ensures
        r is Some <==> valid_utf8(bytes@),
        r matches Some(v) ==> v@ == decode_utf8(bytes@),
{
    match utf8_str(bytes) {
        Some(s) => {
            proof {
                encode_utf8_decode_utf8(s@);
            }
            Some(str_chars(s))
        },
        None => None,
    }
}

/// The Unicode `White_Space` property, which `char::is_whitespace` tests.
pub open spec fn is_white_space(c: char) -> bool {
    ||| '\u{9}' <= c <= '\u{d}'
    ||| c == ' '
    ||| c == '\u{85}'
    ||| c == '\u{a0}'
    ||| c == '\u{1680}'
    ||| '\u{2000}' <= c <= '\u{200a}'
    ||| c == '\u{2028}'
    ||| c == '\u{2029}'
    ||| c == '\u{202f}'
    ||| c == '\u{205f}'
    ||| c == '\u{3000}'
}

/// `char::is_whitespace`.
pub fn is_whitespace(c: char) -> (r: bool)
    ensures
        r == is_white_space(c),
{
    ('\u{9}' <= c && c <= '\u{d}') || c == ' ' || c == '\u{85}' || c == '\u{a0}' || c == '\u{1680}'
        || ('\u{2000}' <= c && c <= '\u{200a}') || c == '\u{2028}' || c == '\u{2029}' || c
        == '\u{202f}' || c == '\u{205f}' || c == '\u{3000}'
}

/// Number of leading whitespace characters.
pub open spec fn leading_ws(s: Seq<char>) -> nat
    decreases s.len(),
{
    if s.len() == 0 || !is_white_space(s[0]) {
        0
    } else {
        1 + leading_ws(s.drop_first())
    }
}

/// Number of trailing whitespace characters.
pub open spec fn trailing_ws(s: Seq<char>) -> nat
    decreases s.len(),
{
    if s.len() == 0 || !is_white_space(s.last()) {
        0
    } else {
        1 + trailing_ws(s.drop_last())
    }
}

/// `s` without leading whitespace (`str::trim_start`).
pub open spec fn trim_start(s: Seq<char>) -> Seq<char> {
    s.skip(leading_ws(s) as int)
}

/// `s` without trailing whitespace (`str::trim_end`).
pub open spec fn trim_end(s: Seq<char>) -> Seq<char> {
    s.take(s.len() - trailing_ws(s))
}

/// `s` without leading and trailing whitespace (`str::trim`).
pub open spec fn trim(s: Seq<char>) -> Seq<char> {
    trim_end(trim_start(s))
}

proof fn lemma_leading_ws(s: Seq<char>, i: int)
    requires
        0 <= i <= s.len(),
        forall|k: int| 0 <= k < i ==> is_white_space(s[k]),
    ensures
        leading_ws(s) >= i,
        i < s.len() && !is_white_space(s[i]) ==> leading_ws(s) == i,
        leading_ws(s) <= s.len(),
    decreases s.len(),
{
    if i > 0 {
        lemma_leading_ws(s.drop_first(), i - 1);
    } else if s.len() > 0 && is_white_space(s[0]) {
        lemma_leading_ws(s.drop_first(), 0);
    }
}

proof fn lemma_trailing_ws(s: Seq<char>, i: int)
    requires
        0 <= i <= s.len(),
        forall|k: int| s.len() - i <= k < s.len() ==> is_white_space(s[k]),
    ensures
        trailing_ws(s) >= i,
        i < s.len() && !is_white_space(s[s.len() - 1 - i]) ==> trailing_ws(s) == i,
        trailing_ws(s) <= s.len(),
    decreases s.len(),
{
    if i > 0 {
        lemma_trailing_ws(s.drop_last(), i - 1);
    } else if s.len() > 0 && is_white_space(s.last()) {
        lemma_trailing_ws(s.drop_last(), 0);
    }
}

/// Index of the first non-whitespace character (the length if none).
pub fn trim_start_index(s: &[char]) -> (r: usize)
    ensures
        r == leading_ws(s@),
        r <= s@.len(),
{
    let mut i: usize = 0;
    while i < s.len() && is_whitespace(s[i])
        invariant
            i <= s@.len(),
            forall|k: int| 0 <= k < i ==> is_white_space(s@[k]),
        decreases s@.len() - i,
    {
        i += 1;
    }
    proof {
        lemma_leading_ws(s@, i as int);
        if i == s@.len() {
            lemma_leading_ws(s@, i as int);
        }
    }
    i
}

/// Index just past the last non-whitespace character (0 if none).
pub fn trim_end_index(s: &[char]) -> (r: usize)
    ensures
        r == s@.len() - trailing_ws(s@),
{
    let mut n: usize = s.len();
    while n > 0 && is_whitespace(s[n - 1])
        invariant
            n <= s@.len(),
            forall|k: int| n <= k < s@.len() ==> is_white_space(s@[k]),
        decreases n,
    {
        n -= 1;
    }
    proof {
        lemma_trailing_ws(s@, s@.len() - n);
    }
    n
}

/// `s` trimmed of leading and trailing whitespace.
pub fn trim_chars(s: &[char]) -> (r: Vec<char>)
    ensures
        r@ == trim(s@),
{
    let a = trim_start_index(s);
    let rest = vstd::slice::slice_subrange(s, a, s.len());
    assert(rest@ =~= trim_start(s@));
    let b = trim_end_index(rest);
    let out = vstd::slice::slice_to_vec(vstd::slice::slice_subrange(rest, 0, b));
    assert(out@ =~= trim(s@));
    out
}

/// `needle` occurs in `hay` at `i`.
pub fn chars_match_at(hay: &[char], needle: &[char], i: usize) -> (r: bool)
    requires
        i + needle@.len() <= hay@.len(),
    ensures
        r == occurs_at(hay@, needle@, i as int),
{
    let n = hay.len();
    let mut j: usize = 0;
    while j < needle.len()
        invariant
            n == hay@.len(),
            i + needle@.len() <= hay@.len(),
            j <= needle@.len(),
            forall|k: int| 0 <= k < j ==> hay@[i + k] == needle@[k],
        decreases needle@.len() - j,
    {
        if hay[i + j] != needle[j] {
            assert(hay@.subrange(i as int, i + needle@.len())[j as int] != needle@[j as int]);
            return false;
        }
        j += 1;
    }
    assert(hay@.subrange(i as int, i + needle@.len()) =~= needle@);
    true
}

/// The first index at or after `start` where `needle` occurs in `hay`.
pub fn find_chars_from(hay: &[char], needle: &[char], start: usize) -> (r: Option<usize>)
    ensures
        match r {
            Some(p) => find_from(hay@, needle@, start as int) == Some(p as int),
            None => find_from(hay@, needle@, start as int) is None,
        },
{
    let n = hay.len();
    if needle.len() > n || start > n - needle.len() {
        return None;
    }
    let max = n - needle.len();
    let mut i: usize = start;
    while i <= max
        invariant
            n == hay@.len(),
            max == n - needle@.len(),
            start <= i <= max + 1,
            find_from(hay@, needle@, start as int) == find_from(hay@, needle@, i as int),
        decreases max + 1 - i,
    {
        if chars_match_at(hay, needle, i) {
            return Some(i);
        }
        if i == max {
            return None;
        }
        i += 1;
    }
    None
}

/// `hay` contains `needle` (`str::contains`).
pub fn contains_chars(hay: &[char], needle: &[char]) -> (r: bool)
    ensures
        r == contains_seq(hay@, needle@),
{
    find_chars_from(hay, needle, 0).is_some()
}

/// `hay` starts with `prefix` (`str::starts_with`).
pub fn starts_with_chars(hay: &[char], prefix: &[char]) -> (r: bool)
    ensures
        r == (prefix@.len() <= hay@.len() && hay@.take(prefix@.len() as int) == prefix@),
{
    if prefix.len() > hay.len() {
        return false;
    }
    let r = chars_match_at(hay, prefix, 0);
    assert(hay@.subrange(0, prefix@.len() as int) =~= hay@.take(prefix@.len() as int));
    r
}

/// The views of a list of character vectors.
pub open spec fn char_views(v: Seq<Vec<char>>) -> Seq<Seq<char>> {
    v.map_values(|x: Vec<char>| x@)
}

/// All pieces of `hay` between the occurrences of the non-empty `sep` (`str::split`).
pub fn split_chars(hay: &[char], sep: &[char]) -> (r: Vec<Vec<char>>)
    requires
        sep@.len() > 0,
    ensures
        char_views(r@) == split_seq(hay@, sep@),
{
    let n = hay.len();
    let mut out: Vec<Vec<char>> = Vec::new();
    let mut start: usize = 0;
    assert(char_views(out@) + split_from(hay@, sep@, 0) =~= split_seq(hay@, sep@));
    loop
        invariant
            n == hay@.len(),
            sep@.len() > 0,
            start <= hay@.len(),
            char_views(out@) + split_from(hay@, sep@, start as int) == split_seq(hay@, sep@),
        decreases hay@.len() + 1 - start,
    {
        let found = find_chars_from(hay, sep, start);
        proof {
            lemma_find_from_bounds(hay@, sep@, start as int);
        }
        let ghost old_out = out@;
        match found {
            None => {
                let piece = vstd::slice::slice_to_vec(vstd::slice::slice_subrange(hay, start, hay.len()));
                out.push(piece);
                assert(char_views(out@) =~= char_views(old_out) + split_from(hay@, sep@, start as int));
                return out;
            },
            Some(pos) => {
                let piece = vstd::slice::slice_to_vec(vstd::slice::slice_subrange(hay, start, pos));
                out.push(piece);
                proof {
                    let rest = split_from(hay@, sep@, pos + sep@.len());
                    assert(split_from(hay@, sep@, start as int) == seq![
                        hay@.subrange(start as int, pos as int),
                    ] + rest);
                    assert(char_views(out@) + rest =~= char_views(old_out) + split_from(
                        hay@,
                        sep@,
                        start as int,
                    ));
                }
                start = pos + sep.len();
            },
        }
    }
}

/// Two character sequences are equal.
pub fn chars_eq(a: &[char], b: &[char]) -> (r: bool)
    ensures
        r == (a@ == b@),
{
    if a.len() != b.len() {
        return false;
    }
    let r = chars_match_at(a, b, 0);
    assert(a@.subrange(0, b@.len() as int) =~= a@);
    r
}

/// An ASCII hexadecimal digit (`u8::is_ascii_hexdigit` on the character).
pub open spec fn is_hex_digit(c: char) -> bool {
    ||| '0' <= c <= '9'
    ||| 'a' <= c <= 'f'
    ||| 'A' <= c <= 'F'
}

/// The value of a hexadecimal digit.
pub open spec fn hex_digit_value(c: char) -> nat {
    if '0' <= c <= '9' {
        (c as nat - '0' as nat) as nat
    } else if 'a' <= c <= 'f' {
        (c as nat - 'a' as nat + 10) as nat
    } else {
        (c as nat - 'A' as nat + 10) as nat
    }
}

/// The value of a string of hexadecimal digits.
pub open spec fn hex_value(s: Seq<char>) -> nat
    decreases s.len(),
{
    if s.len() == 0 {
        0
    } else {
        hex_value(s.drop_last()) * 16 + hex_digit_value(s.last())
    }
}

/// Every character is a hexadecimal digit.
pub open spec fn all_hex(s: Seq<char>) -> bool {
    forall|i: int| 0 <= i < s.len() ==> is_hex_digit(#[trigger] s[i])
}

/// `c` is an ASCII hexadecimal digit.
pub fn is_hex_char(c: char) -> (r: bool)
    ensures
        r == is_hex_digit(c),
{
    ('0' <= c && c <= '9') || ('a' <= c && c <= 'f') || ('A' <= c && c <= 'F')
}

/// ASCII upper case of a hexadecimal digit (`to_ascii_uppercase`).
pub open spec fn hex_upper(c: char) -> char {
    if c == 'a' {
        'A'
    } else if c == 'b' {
        'B'
    } else if c == 'c' {
        'C'
    } else if c == 'd' {
        'D'
    } else if c == 'e' {
        'E'
    } else if c == 'f' {
        'F'
    } else {
        c
    }
}

/// ASCII upper case of a hexadecimal digit.
pub fn hex_upper_char(c: char) -> (r: char)
    ensures
        r == hex_upper(c),
{
    if c == 'a' {
        'A'
    } else if c == 'b' {
        'B'
    } else if c == 'c' {
        'C'
    } else if c == 'd' {
        'D'
    } else if c == 'e' {
        'E'
    } else if c == 'f' {
        'F'
    } else {
        c
    }
}


/// Text whose UTF-8 encoding is all ASCII bytes is ASCII text.
pub proof fn lemma_ascii_bytes_ascii_chars(c: Seq<char>)
    requires
        forall|i: int| 0 <= i < encode_utf8(c).len() ==> #[trigger] encode_utf8(c)[i] < 128,
    ensures
        is_ascii_chars(c),
    decreases c.len(),
{
    if c.len() > 0 {
        let v = c[0] as u32;
        let e = encode_scalar(v);
        let rest = encode_utf8(c.drop_first());
        assert(encode_utf8(c) == e + rest);
        assert(encode_utf8(c)[0] == e[0]);
        if !has_width_1_encoding(v) {
            if has_width_2_encoding(v) {
                assert(leading_byte_width_2(v) >= 0xC0) by (bit_vector);
            } else if has_width_3_encoding(v) {
                assert(leading_byte_width_3(v) >= 0xE0) by (bit_vector);
            } else {
                assert(leading_byte_width_4(v) >= 0xF0) by (bit_vector);
            }
        }
        assert forall|i: int| 0 <= i < rest.len() implies #[trigger] rest[i] < 128 by {
            assert(encode_utf8(c)[e.len() + i] == rest[i]);
        }
        lemma_ascii_bytes_ascii_chars(c.drop_first());
        assert forall|i: int| 0 <= i < c.len() implies '\0' <= #[trigger] c[i] <= '\u{7f}' by {
            if i > 0 {
                assert(c[i] == c.drop_first()[i - 1]);
                assert('\0' <= c.drop_first()[i - 1] <= '\u{7f}');
            } else {
                assert(has_width_1_encoding(v));
                assert((c[0] as u32) <= 0x7f);
                vstd::utf8::char_u32_cast(c[0], v);
                assert((v as char) == c[0]);
                assert(c[0] <= '\u{7f}');
            }
        }
    }
}


/// A line without its carriage return, as `str::lines` strips it before a newline.
pub open spec fn strip_cr(l: Seq<char>) -> Seq<char> {
    if l.len() > 0 && l.last() == '\r' {
        l.drop_last()
    } else {
        l
    }
}

/// The lines of `s` (`str::lines`): split at `\n`, a `\r` before the `\n` removed, and
/// no empty line after a final newline.
pub open spec fn lines(s: Seq<char>) -> Seq<Seq<char>> {
    let p = split_seq(s, seq!['\n']);
    let body = p.drop_last().map_values(|l: Seq<char>| strip_cr(l));
    if p.last().len() == 0 {
        body
    } else {
        body.push(p.last())
    }
}

/// The lines of `s` (see `lines`).
pub fn lines_chars(s: &[char]) -> (r: Vec<Vec<char>>)
    ensures
        char_views(r@) == lines(s@),
{
    let nl = vec!['\n'];
    assert(nl@ =~= seq!['\n']);
    let pieces = split_chars(s, nl.as_slice());
    proof {
        lemma_split_from_last_clean(s@, seq!['\n'], 0);
    }
    let ghost p = split_seq(s@, seq!['\n']);
    let count = pieces.len();
    let mut out: Vec<Vec<char>> = Vec::new();
    let mut i: usize = 0;
    while i + 1 < count
        invariant
            count == pieces@.len(),
            count >= 1,
            char_views(pieces@) == p,
            i + 1 <= count,
            char_views(out@) == p.take(i as int).map_values(|l: Seq<char>| strip_cr(l)),
        decreases count - i,
    {
        let piece = &pieces[i];
        let n = piece.len();
        let line = if n > 0 && piece[n - 1] == '\r' {
            vstd::slice::slice_to_vec(vstd::slice::slice_subrange(piece.as_slice(), 0, n - 1))
        } else {
            vstd::slice::slice_to_vec(piece.as_slice())
        };
        let ghost old_out = out@;
        out.push(line);
        proof {
            assert(p[i as int] == pieces@[i as int]@);
            if n > 0 && piece@[n - 1] == '\r' {
                assert(line@ =~= piece@.drop_last());
            } else {
                assert(line@ =~= piece@);
            }
            assert(line@ == strip_cr(p[i as int]));
            assert(char_views(out@) =~= char_views(old_out).push(line@));
            assert(char_views(out@) =~= p.take(i + 1).map_values(|l: Seq<char>| strip_cr(l)));
        }
        i += 1;
    }
    assert(p.take(i as int) =~= p.drop_last());
    let last = &pieces[count - 1];
    assert(last@ == p.last());
    if last.len() > 0 {
        let ghost old_out = out@;
        out.push(vstd::slice::slice_to_vec(last.as_slice()));
        assert(char_views(out@) =~= char_views(old_out).push(p.last()));
    }
    out
}

/// `pieces` joined with `sep` between consecutive pieces (`[T]::join`).
pub open spec fn join_with(pieces: Seq<Seq<char>>, sep: Seq<char>) -> Seq<char>
    decreases pieces.len(),
{
    if pieces.len() == 0 {
        Seq::empty()
    } else if pieces.len() == 1 {
        pieces[0]
    } else {
        join_with(pieces.drop_last(), sep) + sep + pieces.last()
    }
}

/// Join `pieces` with `sep` in between.
pub fn join_chars(pieces: &[Vec<char>], sep: &[char]) -> (r: Vec<char>)
    ensures
        r@ == join_with(char_views(pieces@), sep@),
{
    let mut out: Vec<char> = Vec::new();
    let mut i: usize = 0;
    while i < pieces.len()
        invariant
            i <= pieces@.len(),
            out@ == join_with(char_views(pieces@).take(i as int), sep@),
        decreases pieces@.len() - i,
    {
        let ghost prev = char_views(pieces@).take(i as int);
        if i > 0 {
            let mut s = vstd::slice::slice_to_vec(sep);
            out.append(&mut s);
        }
        let mut piece = vstd::slice::slice_to_vec(pieces[i].as_slice());
        out.append(&mut piece);
        proof {
            let next = char_views(pieces@).take(i + 1);
            assert(next.drop_last() =~= prev);
            assert(next.last() == pieces@[i as int]@);
            if i == 0 {
                assert(out@ =~= join_with(next, sep@));
            } else {
                assert(out@ =~= join_with(next, sep@));
            }
        }
        i += 1;
    }
    assert(char_views(pieces@).take(i as int) =~= char_views(pieces@));
    out
}

/// `s` with every occurrence of the non-empty `from`, found left to right, replaced by
/// `to` (`str::replace`).
pub open spec fn replace_all(s: Seq<char>, from: Seq<char>, to: Seq<char>) -> Seq<char> {
    join_with(split_seq(s, from), to)
}

/// Replace every occurrence of `from` by `to`.
pub fn replace_chars(s: &[char], from: &[char], to: &[char]) -> (r: Vec<char>)
    requires
        from@.len() > 0,
    ensures
        r@ == replace_all(s@, from@, to@),
{
    let pieces = split_chars(s, from);
    join_chars(pieces.as_slice(), to)
}

/// `s` with the occurrences of the non-empty `secret` cut out, one at a time from the
/// left, until none is left.
pub open spec fn cut_all(s: Seq<char>, secret: Seq<char>) -> Seq<char>
    decreases s.len(),
{
    if secret.len() == 0 {
        s
    } else {
        match find_from(s, secret, 0) {
            Some(i) => {
                proof {
                    lemma_find_from_bounds(s, secret, 0);
                }
                cut_all(s.take(i) + s.skip(i + secret.len()), secret)
            },
            None => s,
        }
    }
}

/// `message` as it may be shown: every occurrence of `secret` masked by `***`; should the
/// masks themselves spell the secret again (a secret of asterisks), those occurrences are
/// cut out. An empty secret hides nothing.
pub open spec fn redact(message: Seq<char>, secret: Seq<char>) -> Seq<char> {
    if secret.len() == 0 {
        message
    } else {
        cut_all(replace_all(message, secret, "***"@), secret)
    }
}

/// Nothing is left of a non-empty `secret` once it is cut out.
pub proof fn lemma_cut_all_hides(s: Seq<char>, secret: Seq<char>)
    requires
        secret.len() > 0,
    ensures
        !contains_seq(cut_all(s, secret), secret),
    decreases s.len(),
{
    lemma_find_from_bounds(s, secret, 0);
    match find_from(s, secret, 0) {
        Some(i) => lemma_cut_all_hides(s.take(i) + s.skip(i + secret.len()), secret),
        None => {},
    }
}

/// A redacted message never holds the non-empty secret.
pub proof fn lemma_redact_hides(message: Seq<char>, secret: Seq<char>)
    requires
        secret.len() > 0,
    ensures
        !contains_seq(redact(message, secret), secret),
{
    lemma_cut_all_hides(replace_all(message, secret, "***"@), secret);
}

/// Cut every occurrence of the non-empty `secret` out of `s`.
fn cut_all_chars(s: Vec<char>, secret: &[char]) -> (r: Vec<char>)
    requires
        secret@.len() > 0,
    ensures
        r@ == cut_all(s@, secret@),
{
    let ghost whole = s@;
    let mut cur = s;
    loop
        invariant
            secret@.len() > 0,
            whole == s@,
            cut_all(cur@, secret@) == cut_all(whole, secret@),
        decreases cur@.len(),
    {
        let found = find_chars_from(cur.as_slice(), secret, 0);
        proof {
            lemma_find_from_bounds(cur@, secret@, 0);
        }
        match found {
            None => {
                assert(cut_all(cur@, secret@) == cur@);
                return cur;
            },
            Some(i) => {
                assert(occurs_at(cur@, secret@, i as int));
                let n = cur.len();
                let end = i + secret.len();
                let mut next = vstd::slice::slice_to_vec(vstd::slice::slice_subrange(cur.as_slice(), 0, i));
                let mut rest = vstd::slice::slice_to_vec(
                    vstd::slice::slice_subrange(cur.as_slice(), end, n),
                );
                next.append(&mut rest);
                assert(next@ =~= cur@.take(i as int) + cur@.skip(i + secret@.len()));
                cur = next;
            },
        }
    }
}

/// `message` with `secret` redacted (see `redact`).
pub fn redact_text(message: &str, secret: &str) -> (r: String)
    ensures
        r@ == redact(message@, secret@),
{
    let p = str_chars(secret);
    if p.len() == 0 {
        return string_from_chars(str_chars(message).as_slice());
    }
    let m = str_chars(message);
    let mask = str_chars("***");
    let masked = replace_chars(m.as_slice(), p.as_slice(), mask.as_slice());
    let cut = cut_all_chars(masked, p.as_slice());
    string_from_chars(cut.as_slice())
}

/// Number of leading non-whitespace characters.
pub open spec fn word_len(s: Seq<char>) -> nat
    decreases s.len(),
{
    if s.len() == 0 || is_white_space(s[0]) {
        0
    } else {
        1 + word_len(s.drop_first())
    }
}

/// The whitespace-separated words of `s` (`str::split_whitespace`).
pub open spec fn words(s: Seq<char>) -> Seq<Seq<char>>
    decreases s.len(),
{
    let t = trim_start(s);
    if t.len() == 0 {
        Seq::empty()
    } else {
        proof {
            lemma_word_len_bounds(t);
            lemma_trim_start_len(s);
        }
        let w = t.take(word_len(t) as int);
        seq![w] + words(t.skip(word_len(t) as int))
    }
}

/// Leading whitespace is part of the text.
pub proof fn lemma_trim_start_len(s: Seq<char>)
    ensures
        leading_ws(s) <= s.len(),
        trim_start(s).len() == s.len() - leading_ws(s),
        trim_start(s).len() > 0 ==> !is_white_space(trim_start(s)[0]),
    decreases s.len(),
{
    if s.len() > 0 && is_white_space(s[0]) {
        lemma_trim_start_len(s.drop_first());
        assert(trim_start(s) =~= trim_start(s.drop_first()));
    }
}

/// A word is part of the text.
pub proof fn lemma_word_len_bounds(t: Seq<char>)
    ensures
        word_len(t) <= t.len(),
        t.len() > 0 && !is_white_space(t[0]) ==> word_len(t) >= 1,
        forall|k: int| 0 <= k < word_len(t) ==> !is_white_space(#[trigger] t[k]),
        word_len(t) < t.len() ==> is_white_space(t[word_len(t) as int]),
    decreases t.len(),
{
    if t.len() > 0 && !is_white_space(t[0]) {
        lemma_word_len_bounds(t.drop_first());
        assert forall|k: int| 0 <= k < word_len(t) implies !is_white_space(#[trigger] t[k]) by {
            if k > 0 {
                assert(t[k] == t.drop_first()[k - 1]);
            }
        }
    }
}

/// Decimal digits of `n` (`n.to_string()` for an unsigned value).
pub open spec fn decimal(n: nat) -> Seq<char>
    decreases n,
{
    if n < 10 {
        seq![((n + 48) as u32) as char]
    } else {
        decimal(n / 10).push((((n % 10) + 48) as u32) as char)
    }
}

/// The decimal text of `n`.
pub fn decimal_chars(n: u64) -> (r: Vec<char>)
    ensures
        r@ == decimal(n as nat),
    decreases n,
{
    let d = (n % 10) as u32;
    let c = ((d + 48) as u8) as char;
    assert(c == (((n % 10) + 48) as u32) as char) by {
        assert(((d + 48) as u8) as char == ((d + 48) as u32) as char);
    }
    if n < 10 {
        let v = vec![c];
        assert(v@ =~= decimal(n as nat));
        v
    } else {
        let mut v = decimal_chars(n / 10);
        v.push(c);
        v
    }
}


/// The text `String::from_utf8_lossy` makes of `bytes` (invalid sequences replaced by
/// U+FFFD).
pub uninterp spec fn utf8_lossy_text(bytes: Seq<u8>) -> Seq<char>;

/// `String::from_utf8_lossy`: the named text of `bytes`; valid UTF-8 is decoded as is.
#[verifier::external_body]
pub fn utf8_lossy(bytes: &[u8]) -> (r: String)
    ensures
        r@ == utf8_lossy_text(bytes@),
        valid_utf8(bytes@) ==> r@ == decode_utf8(bytes@),
{
    String::from_utf8_lossy(bytes).into_owned()
}

} // verus!
