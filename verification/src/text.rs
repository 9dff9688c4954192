//! Character-level helpers shared by the error classifier and the formatters.

use vstd::prelude::*;

verus! {

/// ASCII lower-casing of one character: `A`..=`Z` become `a`..=`z`, every other
/// character is kept as it is.
pub open spec fn ascii_lower(c: char) -> char {
    if 'A' <= c && c <= 'Z' {
        ((c as u32) + 32) as char
    } else {
        c
    }
}

/// ASCII lower-casing of a whole text, character by character.
pub open spec fn ascii_lowercase(s: Seq<char>) -> Seq<char> {
    s.map_values(|c: char| ascii_lower(c))
}

/// `needle` occurs in `hay` as a contiguous run of characters.
pub open spec fn has_substring(hay: Seq<char>, needle: Seq<char>) -> bool {
    exists|i: int|
        0 <= i && i + needle.len() <= hay.len() && #[trigger] hay.subrange(i, i + needle.len())
            == needle
}

pub fn lower_char(c: char) -> (r: char)
    ensures
        r == ascii_lower(c),
{
    if 'A' <= c && c <= 'Z' {
        let b: u8 = c as u8;
        (b + 32) as char
    } else {
        c
    }
}

/// The characters of a string slice, in order.
pub fn chars_of(s: &str) -> (v: Vec<char>)
    ensures
        v@ == s@,
{
    let mut v: Vec<char> = Vec::new();
    for c in it: s.chars()
        invariant
            v@ == it.seq().take(it.index() as int),
    {
        v.push(c);
    }
    v
}

/// The ASCII-lowercased characters of a string slice.
pub fn lowercase_chars(s: &str) -> (v: Vec<char>)
    ensures
        v@ == ascii_lowercase(s@),
{
    let src = chars_of(s);
    let mut v: Vec<char> = Vec::new();
    let n = src.len();
    for i in 0..n
        invariant
            n == src@.len(),
            src@ == s@,
            v@ == ascii_lowercase(src@.take(i as int)),
    {
        v.push(lower_char(src[i]));
        assert(ascii_lowercase(src@.take(i + 1)) =~= ascii_lowercase(src@.take(i as int)).push(
            ascii_lower(src@[i as int]),
        ));
    }
    assert(src@.take(n as int) =~= src@);
    v
}

/// Whether the characters of `hay` at positions `start..start + needle.len()`
/// are exactly `needle`.
fn matches_at(hay: &Vec<char>, needle: &Vec<char>, start: usize) -> (r: bool)
    requires
        start + needle@.len() <= hay@.len(),
    ensures
        r == (hay@.subrange(start as int, start + needle@.len()) == needle@),
{
    let n = needle.len();
    for j in 0..n
        invariant
            n == needle@.len(),
            start + n <= hay.len(),
            forall|k: int| 0 <= k < j ==> hay@[start + k] == needle@[k],
    {
        if hay[start + j] != needle[j] {
            assert(hay@.subrange(start as int, start + n)[j as int] != needle@[j as int]);
            return false;
        }
    }
    assert(hay@.subrange(start as int, start + n) =~= needle@);
    true
}

/// Substring search over character vectors.
pub fn contains_chars(hay: &Vec<char>, needle: &Vec<char>) -> (r: bool)
    ensures
        r == has_substring(hay@, needle@),
{
    if needle.len() > hay.len() {
        return false;
    }
    let last = hay.len() - needle.len();
    let mut i: usize = 0;
    while i < last
        invariant
            last + needle@.len() == hay@.len(),
            i <= last,
            forall|k: int|
                0 <= k < i ==> #[trigger] hay@.subrange(k, k + needle@.len()) != needle@,
        decreases last - i,
    {
        if matches_at(hay, needle, i) {
            return true;
        }
        i = i + 1;
    }
    if matches_at(hay, needle, last) {
        return true;
    }
    assert forall|k: int|
        0 <= k && k + needle@.len() <= hay@.len() implies #[trigger] hay@.subrange(
        k,
        k + needle@.len(),
    ) != needle@ by {
        assert(k <= last);
    }
    false
}

/// `std::string::String::push`: appends one character at the end.
#[verifier::external_body]
pub(crate) fn push_char(s: &mut String, c: char)
    ensures
        final(s)@ == old(s)@.push(c),
{
    s.push(c)
}

/// The lowercase hexadecimal digit of `n` (`0..16`).
pub open spec fn hex_digit(n: int) -> char {
    if n < 10 {
        (48 + n) as char
    } else {
        (87 + n) as char
    }
}

/// Two lowercase hexadecimal digits per byte, most significant first.
pub open spec fn hex_lower(bytes: Seq<u8>) -> Seq<char> {
    Seq::new(
        2 * bytes.len(),
        |i: int|
            if i % 2 == 0 {
                hex_digit((bytes[i / 2] / 16) as int)
            } else {
                hex_digit((bytes[i / 2] % 16) as int)
            },
    )
}

/// `0x` followed by the lowercase hexadecimal digits of `bytes`.
pub open spec fn hex_prefixed(bytes: Seq<u8>) -> Seq<char> {
    seq!['0', 'x'] + hex_lower(bytes)
}

/// The decimal digit character of `d` (`0..10`).
pub open spec fn decimal_digit(d: nat) -> char {
    (48 + d) as char
}

/// The decimal representation of `n`, without leading zeros (`"0"` for zero).
pub open spec fn decimal(n: nat) -> Seq<char>
    decreases n,
{
    if n < 10 {
        seq![decimal_digit(n)]
    } else {
        decimal(n / 10).push(decimal_digit(n % 10))
    }
}

fn hex_digit_char(n: u8) -> (c: char)
    requires
        n < 16,
    ensures
        c == hex_digit(n as int),
{
    if n < 10 {
        (48u8 + n) as char
    } else {
        (87u8 + n) as char
    }
}

/// `0x` followed by two lowercase hexadecimal digits per byte.
pub fn to_hex_prefixed(bytes: &[u8]) -> (s: String)
    ensures
        s@ == hex_prefixed(bytes@),
{
    let mut s = String::new();
    push_char(&mut s, '0');
    push_char(&mut s, 'x');
    let n = bytes.len();
    for i in 0..n
        invariant
            n == bytes@.len(),
            s@ == seq!['0', 'x'] + hex_lower(bytes@.take(i as int)),
    {
        let b = bytes[i];
        push_char(&mut s, hex_digit_char(b / 16));
        push_char(&mut s, hex_digit_char(b % 16));
        assert(hex_lower(bytes@.take(i + 1)) =~= hex_lower(bytes@.take(i as int)).push(
            hex_digit((b / 16) as int),
        ).push(hex_digit((b % 16) as int)));
    }
    assert(bytes@.take(n as int) =~= bytes@);
    s
}

/// The decimal representation of `n`.
pub fn decimal_string(n: u64) -> (s: String)
    ensures
        s@ == decimal(n as nat),
    decreases n,
{
    let digit = (48u8 + (n % 10) as u8) as char;
    if n < 10 {
        let mut s = String::new();
        push_char(&mut s, digit);
        assert(s@ =~= seq![decimal_digit(n as nat)]);
        s
    } else {
        let mut s = decimal_string(n / 10);
        push_char(&mut s, digit);
        s
    }
}

/// Byte-wise equality of two arrays of the same length.
pub fn bytes_equal<const N: usize>(a: &[u8; N], b: &[u8; N]) -> (r: bool)
    ensures
        r == (a@ == b@),
{
    for j in 0..N
        invariant
            a@.len() == N,
            b@.len() == N,
            forall|k: int| 0 <= k < j ==> a@[k] == b@[k],
    {
        if a[j] != b[j] {
            assert(a@[j as int] != b@[j as int]);
            return false;
        }
    }
    assert(a@ =~= b@);
    true
}

} // verus!
