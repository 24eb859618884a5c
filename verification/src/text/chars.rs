//! Characters: classes, case, width in UTF-8, and conversion between strings
//! and character vectors.

use vstd::prelude::*;
use vstd::string::*;
use vstd::utf8::*;

verus! {

/// Appends one character; `String::push` of the standard library.
///
/// The claim: the string gains exactly that character at its end.
pub assume_specification[ String::push ](s: &mut String, c: char)
    ensures
        final(s)@ == old(s)@.push(c),
;

/// The characters with Unicode's White_Space property.
pub open spec fn is_space(c: char) -> bool {
    let n = c as u32;
    ||| 0x09 <= n <= 0x0d
    ||| n == 0x20
    ||| n == 0x85
    ||| n == 0xa0
    ||| n == 0x1680
    ||| 0x2000 <= n <= 0x200a
    ||| n == 0x2028
    ||| n == 0x2029
    ||| n == 0x202f
    ||| n == 0x205f
    ||| n == 0x3000
}

/// Whether `c` is white space.
pub fn char_is_space(c: char) -> (r: bool)
    ensures
        r == is_space(c),
{
    let n: u32 = c as u32;
    (0x09 <= n && n <= 0x0d) || n == 0x20 || n == 0x85 || n == 0xa0 || n == 0x1680 || (0x2000 <= n
        && n <= 0x200a) || n == 0x2028 || n == 0x2029 || n == 0x202f || n == 0x205f || n == 0x3000
}

/// The lower-case form of an ASCII letter; every other character unchanged.
pub open spec fn ascii_lower(c: char) -> char {
    if 'A' <= c && c <= 'Z' {
        ((c as u32 + 32) as u8) as char
    } else {
        c
    }
}

/// A text with its ASCII letters in lower case.
pub open spec fn ascii_lower_all(s: Seq<char>) -> Seq<char> {
    Seq::new(s.len(), |i: int| ascii_lower(s[i]))
}

/// Lower-cases one ASCII letter.
pub fn char_ascii_lower(c: char) -> (r: char)
    ensures
        r == ascii_lower(c),
{
    if 'A' <= c && c <= 'Z' {
        ((c as u32 + 32) as u8) as char
    } else {
        c
    }
}

/// Lower-cases the ASCII letters of a text.
pub fn chars_ascii_lower(s: &[char]) -> (r: Vec<char>)
    ensures
        r@ == ascii_lower_all(s@),
{
    let mut out: Vec<char> = Vec::new();
    let mut i: usize = 0;
    while i < s.len()
        invariant
            i <= s.len(),
            out@ == ascii_lower_all(s@.take(i as int)),
        decreases s.len() - i,
    {
        out.push(char_ascii_lower(s[i]));
        i = i + 1;
    }
    assert(s@.take(s@.len() as int) == s@);
    out
}

/// Whether `c` is an ASCII digit.
pub open spec fn is_digit(c: char) -> bool {
    '0' <= c && c <= '9'
}

/// Bytes that UTF-8 spends on one character.
pub open spec fn char_width(c: char) -> nat {
    let n = c as u32;
    if n <= 0x7f {
        1
    } else if n <= 0x7ff {
        2
    } else if n <= 0xffff {
        3
    } else {
        4
    }
}

/// Bytes that UTF-8 spends on one character.
pub fn width_of(c: char) -> (r: usize)
    ensures
        r == char_width(c),
{
    let n: u32 = c as u32;
    if n <= 0x7f {
        1
    } else if n <= 0x7ff {
        2
    } else if n <= 0xffff {
        3
    } else {
        4
    }
}

/// Bytes that UTF-8 spends on a text.
pub open spec fn byte_len(s: Seq<char>) -> nat
    decreases s.len(),
{
    if s.len() == 0 {
        0
    } else {
        byte_len(s.drop_last()) + char_width(s.last())
    }
}

/// The width of a character is the length of its encoding.
proof fn lemma_char_width(c: char)
    ensures
        encode_scalar(c as u32).len() == char_width(c),
{
    char_is_scalar(c);
}

/// `byte_len` adds over concatenation.
pub proof fn lemma_byte_len_concat(a: Seq<char>, b: Seq<char>)
    ensures
        byte_len(a + b) == byte_len(a) + byte_len(b),
    decreases b.len(),
{
    if b.len() == 0 {
        assert(a + b == a);
    } else {
        assert((a + b).drop_last() == a + b.drop_last());
        lemma_byte_len_concat(a, b.drop_last());
    }
}

/// Every character takes at least one byte.
pub proof fn lemma_byte_len_at_least(s: Seq<char>)
    ensures
        byte_len(s) >= s.len(),
    decreases s.len(),
{
    if s.len() > 0 {
        lemma_byte_len_at_least(s.drop_last());
    }
}

/// A text's byte length is the length of its UTF-8 encoding.
pub proof fn lemma_byte_len_is_encoding(s: Seq<char>)
    ensures
        byte_len(s) == encode_utf8(s).len(),
    decreases s.len(),
{
    if s.len() > 0 {
        let head = seq![s[0]];
        let tail = s.drop_first();
        assert(head + tail == s);
        lemma_byte_len_concat(head, tail);
        lemma_byte_len_is_encoding(tail);
        lemma_char_width(s[0]);
        assert(head.drop_last() == Seq::<char>::empty());
        assert(byte_len(head) == byte_len(head.drop_last()) + char_width(s[0]));
        assert(byte_len(Seq::<char>::empty()) == 0);
    }
}

/// A prefix takes no more bytes than the whole.
pub proof fn lemma_byte_len_take(s: Seq<char>, k: int)
    requires
        0 <= k <= s.len(),
    ensures
        byte_len(s.take(k)) <= byte_len(s),
{
    assert(s.take(k) + s.skip(k) == s);
    lemma_byte_len_concat(s.take(k), s.skip(k));
}

/// The number of bytes in a string.
pub fn str_byte_len(s: &str) -> (r: usize)
    ensures
        r == byte_len(s@),
{
    proof {
        lemma_byte_len_is_encoding(s@);
    }
    let b = s.as_bytes();
    b.len()
}

/// The characters of a string.
pub fn to_chars(s: &str) -> (r: Vec<char>)
    ensures
        r@ == s@,
{
    broadcast use group_string_axioms;

    let mut out: Vec<char> = Vec::new();
    for c in it: s.chars()
        invariant
            out@ == it.seq().take(it.index()),
            it.seq() == s@,
    {
        out.push(c);
    }
    assert(s@.take(s@.len() as int) == s@);
    out
}

/// The string that holds the given characters.
pub fn from_chars(v: &[char]) -> (r: String)
    ensures
        r@ == v@,
{
    let mut out = String::new();
    let mut i: usize = 0;
    while i < v.len()
        invariant
            i <= v.len(),
            out@ == v@.take(i as int),
        decreases v.len() - i,
    {
        out.push(v[i]);
        i = i + 1;
    }
    assert(v@.take(v@.len() as int) == v@);
    out
}

/// The characters from `a` up to, and without, `b`.
pub fn sub_chars(v: &[char], a: usize, b: usize) -> (r: Vec<char>)
    requires
        a <= b <= v@.len(),
    ensures
        r@ == v@.subrange(a as int, b as int),
{
    let mut out: Vec<char> = Vec::new();
    let mut i: usize = a;
    while i < b
        invariant
            a <= i <= b <= v@.len(),
            out@ == v@.subrange(a as int, i as int),
        decreases b - i,
    {
        out.push(v[i]);
        i = i + 1;
    }
    out
}

/// Adds `more` at the end of `out`.
pub fn push_all(out: &mut Vec<char>, more: &[char])
    ensures
        final(out)@ == old(out)@ + more@,
{
    let mut i: usize = 0;
    while i < more.len()
        invariant
            i <= more.len(),
            out@ == old(out)@ + more@.take(i as int),
        decreases more.len() - i,
    {
        out.push(more[i]);
        i = i + 1;
    }
    assert(more@.take(more@.len() as int) == more@);
}

/// Adds the characters of `more` at the end of `out`.
pub fn push_text(out: &mut Vec<char>, more: &str)
    ensures
        final(out)@ == old(out)@ + more@,
{
    let m = to_chars(more);
    push_all(out, m.as_slice());
}

/// Whether two character sequences are equal.
pub fn chars_equal(a: &[char], b: &[char]) -> (r: bool)
    ensures
        r == (a@ == b@),
{
    if a.len() != b.len() {
        return false;
    }
    let mut i: usize = 0;
    while i < a.len()
        invariant
            i <= a.len(),
            a@.len() == b@.len(),
            forall|j: int| 0 <= j < i ==> a@[j] == b@[j],
        decreases a.len() - i,
    {
        if a[i] != b[i] {
            return false;
        }
        i = i + 1;
    }
    assert(a@ == b@);
    true
}

/// Whether two strings are equal.
pub fn same(a: &str, b: &str) -> (r: bool)
    ensures
        r == (a@ == b@),
{
    let x = to_chars(a);
    let y = to_chars(b);
    chars_equal(x.as_slice(), y.as_slice())
}

/// White space is what Unicode counts as such: the blank, the controls from
/// tab to carriage return, the next-line control, and the other blanks and
/// separators.
pub proof fn white_space_of_unicode(c: char, r: bool)
    requires
        call_ensures(char_is_space, (c,), r),
    ensures
        r == (('\t' <= c <= '\r') || c == ' ' || c == '\u{85}' || c == '\u{a0}' || c == '\u{1680}' || (
        '\u{2000}' <= c <= '\u{200a}') || c == '\u{2028}' || c == '\u{2029}' || c == '\u{202f}' || c
            == '\u{205f}' || c == '\u{3000}'),
{
}

/// Lower case is taken of the ASCII letters alone, letter by letter and
/// without changing the number of characters.
pub proof fn lower_case_of_ascii_letters(s: &[char], r: Vec<char>, i: int)
    requires
        call_ensures(chars_ascii_lower, (s,), r),
        0 <= i < s@.len(),
    ensures
        r@.len() == s@.len(),
        'A' <= s@[i] <= 'Z' ==> r@[i] as u32 == s@[i] as u32 + 32,
        !('A' <= s@[i] <= 'Z') ==> r@[i] == s@[i],
{
}

} // verus!
