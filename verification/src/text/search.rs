//! Searching in text, and replacing what was found.

use vstd::prelude::*;
use crate::text::chars::{is_space, char_is_space, push_all, sub_chars};

verus! {

/// `pat` stands in `s` at index `i`.
pub open spec fn occurs_at(s: Seq<char>, pat: Seq<char>, i: int) -> bool {
    0 <= i && i + pat.len() <= s.len() && s.subrange(i, i + pat.len()) == pat
}

/// The first index at or after `from` where `pat` stands in `s`.
pub open spec fn find_from(s: Seq<char>, pat: Seq<char>, from: int) -> Option<int>
    decreases s.len() - from,
{
    if from < 0 || from + pat.len() > s.len() {
        None
    } else if occurs_at(s, pat, from) {
        Some(from)
    } else if from == s.len() {
        None
    } else {
        find_from(s, pat, from + 1)
    }
}

/// `pat` stands somewhere in `s`.
pub open spec fn contains(s: Seq<char>, pat: Seq<char>) -> bool {
    exists|i: int| occurs_at(s, pat, i)
}

/// What `find_from` finds is the first occurrence.
pub proof fn lemma_find_from(s: Seq<char>, pat: Seq<char>, from: int)
    requires
        0 <= from,
    ensures
        match find_from(s, pat, from) {
            Some(i) => from <= i && occurs_at(s, pat, i) && forall|j: int|
                from <= j < i ==> !occurs_at(s, pat, j),
            None => forall|j: int| from <= j ==> !occurs_at(s, pat, j),
        },
    decreases s.len() - from,
{
    if from + pat.len() > s.len() {
    } else if occurs_at(s, pat, from) {
    } else if from == s.len() {
    } else {
        lemma_find_from(s, pat, from + 1);
    }
}

/// A text holds a pattern exactly when the search from its start succeeds.
pub proof fn lemma_contains_is_find(s: Seq<char>, pat: Seq<char>)
    ensures
        contains(s, pat) == (find_from(s, pat, 0) is Some),
{
    lemma_find_from(s, pat, 0);
}

/// The first index at or after `from` where `c` stands in `s`.
pub open spec fn index_from(s: Seq<char>, c: char, from: int) -> Option<int>
    decreases s.len() - from,
{
    if from < 0 || from >= s.len() {
        None
    } else if s[from] == c {
        Some(from)
    } else {
        index_from(s, c, from + 1)
    }
}

/// What `index_from` finds is the first occurrence of the character.
pub proof fn lemma_index_from(s: Seq<char>, c: char, from: int)
    requires
        0 <= from,
    ensures
        match index_from(s, c, from) {
            Some(i) => from <= i < s.len() && s[i] == c && forall|j: int|
                from <= j < i ==> s[j] != c,
            None => forall|j: int| from <= j < s.len() ==> s[j] != c,
        },
    decreases s.len() - from,
{
    if from < s.len() && s[from] != c {
        lemma_index_from(s, c, from + 1);
    }
}

/// Whether `pat` stands in `s` at `i`.
pub fn at(s: &[char], pat: &[char], i: usize) -> (r: bool)
    ensures
        r == occurs_at(s@, pat@, i as int),
{
    if i > s.len() || pat.len() > s.len() - i {
        return false;
    }
    let n: usize = s.len();
    let mut k: usize = 0;
    while k < pat.len()
        invariant
            k <= pat@.len(),
            n == s@.len(),
            i + pat@.len() <= s@.len(),
            forall|j: int| 0 <= j < k ==> s@[i + j] == pat@[j],
        decreases pat@.len() - k,
    {
        if s[i + k] != pat[k] {
            assert(s@.subrange(i as int, i + pat@.len())[k as int] != pat@[k as int]);
            return false;
        }
        k = k + 1;
    }
    assert(s@.subrange(i as int, i + pat@.len()) == pat@);
    true
}

/// The first occurrence of `pat` at or after `from`.
pub fn find(s: &[char], pat: &[char], from: usize) -> (r: Option<usize>)
    ensures
        match r {
            Some(i) => find_from(s@, pat@, from as int) == Some(i as int),
            None => find_from(s@, pat@, from as int) is None,
        },
{
    if from > s.len() || pat.len() > s.len() - from {
        return None;
    }
    let mut i: usize = from;
    loop
        invariant
            from <= i,
            i + pat@.len() <= s@.len(),
            find_from(s@, pat@, from as int) == find_from(s@, pat@, i as int),
        decreases s@.len() - i,
    {
        if at(s, pat, i) {
            return Some(i);
        }
        if i >= s.len() - pat.len() {
            assert(find_from(s@, pat@, i + 1) is None);
            return None;
        }
        i = i + 1;
    }
}

/// Whether `pat` stands somewhere in `s`.
pub fn has(s: &[char], pat: &[char]) -> (r: bool)
    ensures
        r == contains(s@, pat@),
{
    proof {
        lemma_contains_is_find(s@, pat@);
    }
    find(s, pat, 0).is_some()
}

/// The first index of `c` at or after `from`.
pub fn index_of(s: &[char], c: char, from: usize) -> (r: Option<usize>)
    ensures
        match r {
            Some(i) => index_from(s@, c, from as int) == Some(i as int),
            None => index_from(s@, c, from as int) is None,
        },
{
    let mut i: usize = from;
    while i < s.len()
        invariant
            from <= i,
            index_from(s@, c, from as int) == index_from(s@, c, i as int),
        decreases s@.len() - i,
    {
        if s[i] == c {
            return Some(i);
        }
        i = i + 1;
    }
    None
}

/// `s` begins with `pat`.
pub open spec fn starts_with(s: Seq<char>, pat: Seq<char>) -> bool {
    occurs_at(s, pat, 0)
}

/// Whether `s` begins with `pat`.
pub fn begins(s: &[char], pat: &[char]) -> (r: bool)
    ensures
        r == starts_with(s@, pat@),
{
    at(s, pat, 0)
}

/// The number of occurrences of `pat` from `from` on, none overlapping
/// another, taken from the left.
pub open spec fn count_from(s: Seq<char>, pat: Seq<char>, from: int) -> nat
    recommends
        pat.len() > 0,
    decreases s.len() - from,
{
    if from < 0 || pat.len() == 0 {
        0
    } else {
        match find_from(s, pat, from) {
            Some(i) => if from <= i && i + pat.len() <= s.len() {
                1 + count_from(s, pat, i + pat.len())
            } else {
                0
            },
            None => 0,
        }
    }
}

/// The number of characters bounds the number of occurrences.
proof fn lemma_count_bound(s: Seq<char>, pat: Seq<char>, from: int)
    requires
        0 <= from <= s.len(),
        pat.len() > 0,
    ensures
        count_from(s, pat, from) <= s.len() - from,
    decreases s.len() - from,
{
    lemma_find_from(s, pat, from);
    if let Some(i) = find_from(s, pat, from) {
        lemma_count_bound(s, pat, i + pat.len());
    }
}

/// Counts the occurrences of `pat` that do not overlap, from the left.
pub fn count(s: &[char], pat: &[char]) -> (r: usize)
    requires
        pat@.len() > 0,
    ensures
        r == count_from(s@, pat@, 0),
{
    let len: usize = s.len();
    let mut n: usize = 0;
    let mut pos: usize = 0;
    loop
        invariant
            pat@.len() > 0,
            len == s@.len(),
            pos <= s@.len(),
            n + count_from(s@, pat@, pos as int) == count_from(s@, pat@, 0),
            n <= pos,
        decreases s@.len() - pos,
    {
        proof {
            lemma_find_from(s@, pat@, pos as int);
        }
        match find(s, pat, pos) {
            Some(i) => {
                n = n + 1;
                pos = i + pat.len();
            },
            None => {
                return n;
            },
        }
    }
}

/// `s` with the characters from `a` up to `b` replaced by `with`.
pub open spec fn splice(s: Seq<char>, a: int, b: int, with: Seq<char>) -> Seq<char> {
    s.take(a) + with + s.skip(b)
}

/// Replaces the characters from `a` up to `b`.
pub fn replace_range(s: &[char], a: usize, b: usize, with: &[char]) -> (r: Vec<char>)
    requires
        a <= b <= s@.len(),
    ensures
        r@ == splice(s@, a as int, b as int, with@),
{
    let mut out = sub_chars(s, 0, a);
    push_all(&mut out, with);
    let tail = sub_chars(s, b, s.len());
    push_all(&mut out, tail.as_slice());
    assert(out@ == splice(s@, a as int, b as int, with@));
    out
}

/// `s` with every occurrence of `pat` from `from` on replaced, left to right.
pub open spec fn replaced_from(s: Seq<char>, pat: Seq<char>, with: Seq<char>, from: int) -> Seq<
    char,
>
    recommends
        pat.len() > 0,
        0 <= from <= s.len(),
    decreases s.len() - from,
{
    if from < 0 || from > s.len() || pat.len() == 0 {
        Seq::empty()
    } else {
        match find_from(s, pat, from) {
            Some(i) => if from <= i && i + pat.len() <= s.len() {
                s.subrange(from, i) + with + replaced_from(s, pat, with, i + pat.len())
            } else {
                Seq::empty()
            },
            None => s.skip(from),
        }
    }
}

/// Replaces every occurrence of `pat`, left to right.
pub fn replace_all(s: &[char], pat: &[char], with: &[char]) -> (r: Vec<char>)
    requires
        pat@.len() > 0,
    ensures
        r@ == replaced_from(s@, pat@, with@, 0),
{
    let len: usize = s.len();
    let mut out: Vec<char> = Vec::new();
    let mut pos: usize = 0;
    loop
        invariant
            pat@.len() > 0,
            len == s@.len(),
            pos <= s@.len(),
            out@ + replaced_from(s@, pat@, with@, pos as int) == replaced_from(s@, pat@, with@, 0),
        decreases s@.len() - pos,
    {
        proof {
            lemma_find_from(s@, pat@, pos as int);
        }
        match find(s, pat, pos) {
            Some(i) => {
                let before = sub_chars(s, pos, i);
                let ghost out0 = out@;
                push_all(&mut out, before.as_slice());
                push_all(&mut out, with);
                assert(out@ + replaced_from(s@, pat@, with@, i + pat@.len()) == out0 + (
                s@.subrange(pos as int, i as int) + with@ + replaced_from(
                    s@,
                    pat@,
                    with@,
                    i + pat@.len(),
                )));
                pos = i + pat.len();
            },
            None => {
                let rest = sub_chars(s, pos, s.len());
                assert(rest@ == s@.skip(pos as int));
                push_all(&mut out, rest.as_slice());
                return out;
            },
        }
    }
}

/// `s` without the white space at its start.
pub open spec fn trim_start(s: Seq<char>) -> Seq<char>
    decreases s.len(),
{
    if s.len() > 0 && is_space(s[0]) {
        trim_start(s.drop_first())
    } else {
        s
    }
}

/// `s` without the white space at its end.
pub open spec fn trim_end(s: Seq<char>) -> Seq<char>
    decreases s.len(),
{
    if s.len() > 0 && is_space(s.last()) {
        trim_end(s.drop_last())
    } else {
        s
    }
}

/// `s` without the white space at its two ends.
pub open spec fn trim(s: Seq<char>) -> Seq<char> {
    trim_end(trim_start(s))
}

/// `s` holds nothing but white space.
pub open spec fn is_blank(s: Seq<char>) -> bool {
    forall|i: int| 0 <= i < s.len() ==> is_space(#[trigger] s[i])
}

/// Removes the white space at the start.
pub fn trimmed_start(s: &[char]) -> (r: Vec<char>)
    ensures
        r@ == trim_start(s@),
{
    let mut a: usize = 0;
    assert(s@.skip(0) == s@);
    while a < s.len() && char_is_space(s[a])
        invariant
            a <= s@.len(),
            trim_start(s@) == trim_start(s@.skip(a as int)),
        decreases s@.len() - a,
    {
        assert(s@.skip(a as int).drop_first() == s@.skip(a + 1));
        a = a + 1;
    }
    assert(s@.skip(a as int) == s@.subrange(a as int, s@.len() as int));
    sub_chars(s, a, s.len())
}

/// Removes the white space at the end.
pub fn trimmed_end(s: &[char]) -> (r: Vec<char>)
    ensures
        r@ == trim_end(s@),
{
    let mut b: usize = s.len();
    assert(s@.take(s@.len() as int) == s@);
    while b > 0 && char_is_space(s[b - 1])
        invariant
            b <= s@.len(),
            trim_end(s@) == trim_end(s@.take(b as int)),
        decreases b,
    {
        assert(s@.take(b as int).drop_last() == s@.take(b - 1));
        b = b - 1;
    }
    sub_chars(s, 0, b)
}

/// Removes the white space at both ends.
pub fn trimmed(s: &[char]) -> (r: Vec<char>)
    ensures
        r@ == trim(s@),
{
    let a = trimmed_start(s);
    trimmed_end(a.as_slice())
}

/// Trimming leaves nothing exactly of blank text.
pub proof fn blank_text_trims_to_nothing(s: Seq<char>)
    ensures
        (trim(s).len() == 0) == is_blank(s),
{
    lemma_trim_start_blank(s);
    lemma_trim_end_blank(trim_start(s));
}

proof fn lemma_trim_start_blank(s: Seq<char>)
    ensures
        is_blank(trim_start(s)) == is_blank(s),
        trim_start(s).len() > 0 ==> !is_space(trim_start(s)[0]),
    decreases s.len(),
{
    if s.len() > 0 && is_space(s[0]) {
        lemma_trim_start_blank(s.drop_first());
        assert forall|i: int| is_blank(s.drop_first()) && 0 <= i < s.len() implies is_space(
            #[trigger] s[i],
        ) by {
            if i > 0 {
                assert(s.drop_first()[i - 1] == s[i]);
            }
        }
    }
}

proof fn lemma_trim_end_blank(s: Seq<char>)
    ensures
        (trim_end(s).len() == 0) == is_blank(s),
    decreases s.len(),
{
    if s.len() > 0 && is_space(s.last()) {
        lemma_trim_end_blank(s.drop_last());
        assert forall|i: int| is_blank(s.drop_last()) && 0 <= i < s.len() implies is_space(
            #[trigger] s[i],
        ) by {
            if i < s.len() - 1 {
                assert(s.drop_last()[i] == s[i]);
            }
        }
    } else if s.len() > 0 {
        assert(!is_space(s[s.len() - 1]));
    }
}

/// Whether `s` holds nothing but white space.
pub fn blank(s: &[char]) -> (r: bool)
    ensures
        r == is_blank(s@),
{
    let mut i: usize = 0;
    while i < s.len()
        invariant
            i <= s@.len(),
            forall|j: int| 0 <= j < i ==> is_space(#[trigger] s@[j]),
        decreases s@.len() - i,
    {
        if !char_is_space(s[i]) {
            return false;
        }
        i = i + 1;
    }
    true
}

/// Where one text stands in another, its characters stand there one by one.
pub proof fn occurrence_is_character_by_character(s: &[char], pat: &[char], i: usize, r: bool)
    requires
        call_ensures(at, (s, pat, i), r),
    ensures
        r == (i + pat@.len() <= s@.len() && forall|j: int|
            0 <= j < pat@.len() ==> s@[i + j] == #[trigger] pat@[j]),
{
    if i + pat@.len() <= s@.len() {
        let there = s@.subrange(i as int, i + pat@.len());
        if r {
            assert forall|j: int| 0 <= j < pat@.len() implies s@[i + j] == #[trigger] pat@[j] by {
                assert(there[j] == s@[i + j]);
            }
        }
        if forall|j: int| 0 <= j < pat@.len() ==> s@[i + j] == #[trigger] pat@[j] {
            assert(there == pat@);
        }
    }
}

/// A search finds the first place at or after its start, if there is one.
pub proof fn search_finds_the_first_place(
    s: &[char],
    pat: &[char],
    from: usize,
    r: Option<usize>,
)
    requires
        call_ensures(find, (s, pat, from), r),
    ensures
        forall|j: int|
            from <= j && j + pat@.len() <= s@.len() && #[trigger] s@.subrange(j, j + pat@.len())
                == pat@ ==> r is Some && r->0 <= j,
        r is Some ==> from <= r->0 && r->0 + pat@.len() <= s@.len() && s@.subrange(
            r->0 as int,
            r->0 + pat@.len(),
        ) == pat@,
{
    lemma_find_from(s@, pat@, from as int);
    assert forall|j: int|
        from <= j && j + pat@.len() <= s@.len() && #[trigger] s@.subrange(j, j + pat@.len())
            == pat@ implies r is Some && r->0 <= j by {
        assert(occurs_at(s@, pat@, j));
    }
}

/// A text with nothing to count has none; and where it first stands once, the
/// rest behind that place has one fewer.
pub proof fn count_goes_place_by_place(
    s: &[char],
    pat: &[char],
    rest: &[char],
    n: usize,
    m: usize,
    i: int,
)
    requires
        pat@.len() > 0,
        call_ensures(count, (s, pat), n),
        call_ensures(count, (rest, pat), m),
        0 <= i && i + pat@.len() <= s@.len(),
        s@.subrange(i, i + pat@.len()) == pat@,
        forall|j: int| 0 <= j < i ==> #[trigger] s@.subrange(j, j + pat@.len()) != pat@,
        rest@ == s@.skip(i + pat@.len()),
    ensures
        n == m + 1,
{
    lemma_find_from(s@, pat@, 0);
    assert(occurs_at(s@, pat@, i));
    let k = find_from(s@, pat@, 0)->0;
    assert(s@.subrange(k, k + pat@.len()) == pat@);
    assert(k == i);
    lemma_count_shift(s@, pat@, i + pat@.len(), i + pat@.len());
    assert(s@.skip(i + pat@.len()) == rest@);
}

/// Searching behind a place is searching in what stands behind it.
proof fn lemma_find_shift(s: Seq<char>, pat: Seq<char>, cut: int, from: int)
    requires
        0 <= cut <= from,
        cut <= s.len(),
    ensures
        find_from(s, pat, from) == (match find_from(s.skip(cut), pat, from - cut) {
            Some(i) => Some(i + cut),
            None => None,
        }),
    decreases s.len() - from,
{
    if from + pat.len() <= s.len() {
        assert(s.skip(cut).subrange(from - cut, from - cut + pat.len()) == s.subrange(
            from,
            from + pat.len(),
        ));
        if !occurs_at(s, pat, from) && from < s.len() {
            lemma_find_shift(s, pat, cut, from + 1);
        }
    }
}

proof fn lemma_count_shift(s: Seq<char>, pat: Seq<char>, cut: int, from: int)
    requires
        0 <= cut <= from,
        cut <= s.len(),
        pat.len() > 0,
    ensures
        count_from(s, pat, from) == count_from(s.skip(cut), pat, from - cut),
    decreases s.len() - from,
{
    lemma_find_shift(s, pat, cut, from);
    lemma_find_from(s, pat, from);
    if let Some(i) = find_from(s, pat, from) {
        lemma_count_shift(s, pat, cut, i + pat.len());
    }
}

proof fn lemma_replaced_shift(s: Seq<char>, pat: Seq<char>, with: Seq<char>, cut: int, from: int)
    requires
        0 <= cut <= from <= s.len(),
        pat.len() > 0,
    ensures
        replaced_from(s, pat, with, from) == replaced_from(s.skip(cut), pat, with, from - cut),
    decreases s.len() - from,
{
    let t = s.skip(cut);
    lemma_find_shift(s, pat, cut, from);
    lemma_find_from(s, pat, from);
    match find_from(s, pat, from) {
        Some(i) => {
            lemma_replaced_shift(s, pat, with, cut, i + pat.len());
            assert(t.subrange(from - cut, i - cut) == s.subrange(from, i));
        },
        None => {
            assert(t.skip(from - cut) == s.skip(from));
        },
    }
}

/// Where a text stands nowhere nothing is replaced; where it first stands, the
/// new text takes its place, what is before it stays, and what is behind it
/// goes on in the same way.
pub proof fn replacing_goes_place_by_place(
    s: &[char],
    pat: &[char],
    with: &[char],
    rest: &[char],
    r: Vec<char>,
    q: Vec<char>,
)
    requires
        pat@.len() > 0,
        call_ensures(replace_all, (s, pat, with), r),
        call_ensures(replace_all, (rest, pat, with), q),
    ensures
        (forall|j: int|
            0 <= j <= s@.len() - pat@.len() ==> #[trigger] s@.subrange(j, j + pat@.len()) != pat@)
            ==> r@ == s@,
        forall|i: int|
            0 <= i <= s@.len() - pat@.len() && #[trigger] s@.subrange(i, i + pat@.len()) == pat@
                && (forall|j: int|
                0 <= j < i ==> #[trigger] s@.subrange(j, j + pat@.len()) != pat@) && rest@
                == s@.skip(i + pat@.len()) ==> r@ == s@.take(i) + with@ + q@,
{
    lemma_find_from(s@, pat@, 0);
    let found = find_from(s@, pat@, 0);
    if found is Some {
        assert(s@.subrange(found->0, found->0 + pat@.len()) == pat@);
    } else {
        assert(s@.skip(0) == s@);
    }
    assert forall|i: int|
        0 <= i <= s@.len() - pat@.len() && #[trigger] s@.subrange(i, i + pat@.len()) == pat@ && (
        forall|j: int| 0 <= j < i ==> #[trigger] s@.subrange(j, j + pat@.len()) != pat@) && rest@
            == s@.skip(i + pat@.len()) implies r@ == s@.take(i) + with@ + q@ by {
        assert(occurs_at(s@, pat@, i));
        assert(found == Some(i));
        lemma_replaced_shift(s@, pat@, with@, i + pat@.len(), i + pat@.len());
        assert(s@.subrange(0, i) == s@.take(i));
    }
}

proof fn lemma_trim_start_cut(s: Seq<char>) -> (k: int)
    ensures
        0 <= k <= s.len(),
        trim_start(s) == s.skip(k),
        forall|i: int| 0 <= i < k ==> is_space(#[trigger] s[i]),
        k < s.len() ==> !is_space(s[k]),
    decreases s.len(),
{
    if s.len() > 0 && is_space(s[0]) {
        let k = lemma_trim_start_cut(s.drop_first());
        assert(s.skip(k + 1) == s.drop_first().skip(k));
        assert forall|i: int| 0 <= i < k + 1 implies is_space(#[trigger] s[i]) by {
            if i > 0 {
                assert(s.drop_first()[i - 1] == s[i]);
            }
        }
        k + 1
    } else {
        assert(s.skip(0) == s);
        0
    }
}

proof fn lemma_trim_end_cut(s: Seq<char>) -> (k: int)
    ensures
        0 <= k <= s.len(),
        trim_end(s) == s.take(k),
        forall|i: int| k <= i < s.len() ==> is_space(#[trigger] s[i]),
        k > 0 ==> !is_space(s[k - 1]),
    decreases s.len(),
{
    if s.len() > 0 && is_space(s.last()) {
        let k = lemma_trim_end_cut(s.drop_last());
        assert(s.take(k) == s.drop_last().take(k));
        assert forall|i: int| k <= i < s.len() implies is_space(#[trigger] s[i]) by {
            if i < s.len() - 1 {
                assert(s.drop_last()[i] == s[i]);
            }
        }
        k
    } else {
        assert(s.take(s.len() as int) == s);
        s.len() as int
    }
}

/// Trimming takes away nothing but white space at the two ends, and all of it.
pub proof fn trimming_takes_white_space_alone(s: &[char], r: Vec<char>)
    requires
        call_ensures(trimmed, (s,), r),
    ensures
        r@.len() > 0 ==> !is_space(r@[0]) && !is_space(r@.last()),
        exists|a: int, b: int|
            #![trigger s@.subrange(a, b)]
            {
                &&& 0 <= a <= b <= s@.len()
                &&& r@ == s@.subrange(a, b)
                &&& forall|i: int|
                    0 <= i < s@.len() && (i < a || i >= b) ==> is_space(#[trigger] s@[i])
            },
{
    let a = lemma_trim_start_cut(s@);
    let t = trim_start(s@);
    let k = lemma_trim_end_cut(t);
    let b = a + k;
    assert(t.take(k) == s@.subrange(a, b));
    assert forall|i: int| 0 <= i < s@.len() && (i < a || i >= b) implies is_space(
        #[trigger] s@[i],
    ) by {
        if i >= b {
            assert(t[i - a] == s@[i]);
        }
    }
    if k > 0 {
        assert(t[0] == s@[a]);
        assert(r@.last() == t[k - 1]);
    }
}

} // verus!
