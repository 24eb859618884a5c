//! Hiding credentials in the output of commands.
//!
//! Only the secret itself is replaced, by three stars: the value assigned to a
//! name that sounds secret, and tokens that begin like a well-known kind of
//! key. The rest of the line stays.

use vstd::prelude::*;
use vstd::string::*;
use crate::text::chars::{
    ascii_lower, ascii_lower_all, char_is_space, chars_ascii_lower, from_chars, is_space, push_all,
    push_text, sub_chars, to_chars,
};
use crate::text::search::{
    find, find_from, index_from, index_of, lemma_find_from, lemma_index_from, occurs_at,
};
use crate::text::split::{char_views, lines, lines_part_at_line_feeds, split_lines};

verus! {

/// A quotation mark.
pub open spec fn is_quote(c: char) -> bool {
    c == '"' || c == '\''
}

/// A blank or a tab.
pub open spec fn is_blank_or_tab(c: char) -> bool {
    c == ' ' || c == '\t'
}

/// The first index at or after `i` past blanks, tabs and quotation marks.
pub open spec fn past_blanks_and_quotes(s: Seq<char>, i: int) -> int
    decreases s.len() - i,
{
    if 0 <= i < s.len() && (is_blank_or_tab(s[i]) || is_quote(s[i])) {
        past_blanks_and_quotes(s, i + 1)
    } else {
        i
    }
}

/// The first index at or after `i` past blanks and tabs.
pub open spec fn past_blanks(s: Seq<char>, i: int) -> int
    decreases s.len() - i,
{
    if 0 <= i < s.len() && is_blank_or_tab(s[i]) {
        past_blanks(s, i + 1)
    } else {
        i
    }
}

/// The first index at or after `i` with white space, or the end of `s`.
pub open spec fn to_space(s: Seq<char>, i: int) -> int
    decreases s.len() - i,
{
    if 0 <= i < s.len() && !is_space(s[i]) {
        to_space(s, i + 1)
    } else {
        i
    }
}

/// The first index at or after `i` with white space or a quotation mark, or
/// the end of `s`.
pub open spec fn to_space_or_quote(s: Seq<char>, i: int) -> int
    decreases s.len() - i,
{
    if 0 <= i < s.len() && !is_space(s[i]) && !is_quote(s[i]) {
        to_space_or_quote(s, i + 1)
    } else {
        i
    }
}

/// Where the value that starts at `v` ends: past the closing quotation mark
/// of a quoted value, else at the next white space, else at the end.
pub open spec fn value_end(s: Seq<char>, v: int) -> int {
    if v >= s.len() {
        v
    } else if is_quote(s[v]) {
        match index_from(s, s[v], v + 1) {
            Some(j) => j + 1,
            None => s.len() as int,
        }
    } else {
        to_space(s, v)
    }
}

/// The values that `key` is assigned in `line` from index `from` on. The key
/// is looked for in `lower`, the line in lower case.
pub open spec fn key_edits(line: Seq<char>, lower: Seq<char>, key: Seq<char>, from: int) -> Seq<
    (int, int),
>
    recommends
        lower.len() == line.len(),
        key.len() > 0,
    decreases line.len() - from,
    when 0 <= from && lower.len() == line.len() && key.len() > 0
    via key_edits_terminates
{
    match find_from(lower, key, from) {
        None => Seq::empty(),
        Some(k) => {
            let k_end = k + key.len();
            let c = past_blanks_and_quotes(line, k_end);
            if c < line.len() && (line[c] == '=' || line[c] == ':') {
                let v = past_blanks(line, c + 1);
                let e = value_end(line, v);
                let rest = key_edits(line, lower, key, e);
                if e > v {
                    seq![(v, e)] + rest
                } else {
                    rest
                }
            } else {
                key_edits(line, lower, key, k_end)
            }
        },
    }
}

#[via_fn]
proof fn key_edits_terminates(line: Seq<char>, lower: Seq<char>, key: Seq<char>, from: int) {
    lemma_find_from(lower, key, from);
    if let Some(k) = find_from(lower, key, from) {
        let k_end = k + key.len();
        lemma_scan_bounds(line, k_end);
        let c = past_blanks_and_quotes(line, k_end);
        if c < line.len() {
            lemma_scan_bounds(line, c + 1);
            lemma_value_end_bounds(line, past_blanks(line, c + 1));
        }
    }
}

/// Scanning forward never leaves the text.
proof fn lemma_scan_bounds(s: Seq<char>, i: int)
    requires
        0 <= i <= s.len(),
    ensures
        i <= past_blanks_and_quotes(s, i) <= s.len(),
        i <= past_blanks(s, i) <= s.len(),
        i <= to_space(s, i) <= s.len(),
        i <= to_space_or_quote(s, i) <= s.len(),
    decreases s.len() - i,
{
    if i < s.len() {
        lemma_scan_bounds(s, i + 1);
    }
}

proof fn lemma_value_end_bounds(s: Seq<char>, v: int)
    requires
        0 <= v <= s.len(),
    ensures
        v <= value_end(s, v) <= s.len(),
{
    lemma_scan_bounds(s, v);
    if v < s.len() {
        lemma_index_from(s, s[v], v + 1);
    }
}

/// What may stand right before a token: white space or a quotation mark.
pub open spec fn ends_before_token(c: char) -> bool {
    is_space(c) || is_quote(c)
}

/// A token may start at index `p`.
pub open spec fn at_token_start(line: Seq<char>, p: int) -> bool {
    p == 0 || ends_before_token(line[p - 1])
}

/// The tokens that begin with `prefix` in `line` from index `from` on. The
/// prefix, in lower case, is looked for in `lower`, the line in lower case.
pub open spec fn prefix_edits(
    line: Seq<char>,
    lower: Seq<char>,
    prefix: Seq<char>,
    from: int,
) -> Seq<(int, int)>
    recommends
        lower.len() == line.len(),
        prefix.len() > 0,
    decreases line.len() - from,
    when 0 <= from && lower.len() == line.len() && prefix.len() > 0
    via prefix_edits_terminates
{
    match find_from(lower, prefix, from) {
        None => Seq::empty(),
        Some(p) => {
            let past = p + prefix.len();
            if at_token_start(line, p) {
                let e = to_space_or_quote(line, p);
                let rest = prefix_edits(line, lower, prefix, if e > past { e } else { past });
                if e > p {
                    seq![(p, e)] + rest
                } else {
                    rest
                }
            } else {
                prefix_edits(line, lower, prefix, past)
            }
        },
    }
}

#[via_fn]
proof fn prefix_edits_terminates(line: Seq<char>, lower: Seq<char>, prefix: Seq<char>, from: int) {
    lemma_find_from(lower, prefix, from);
    if let Some(p) = find_from(lower, prefix, from) {
        lemma_scan_bounds(line, p);
    }
}

/// The values assigned to any of the keys.
pub open spec fn all_key_edits(line: Seq<char>, keys: Seq<Seq<char>>) -> Seq<(int, int)>
    decreases keys.len(),
{
    if keys.len() == 0 {
        Seq::empty()
    } else {
        all_key_edits(line, keys.drop_last()) + key_edits(
            line,
            ascii_lower_all(line),
            keys.last(),
            0,
        )
    }
}

/// The tokens that begin with any of the prefixes.
pub open spec fn all_prefix_edits(line: Seq<char>, prefixes: Seq<Seq<char>>) -> Seq<(int, int)>
    decreases prefixes.len(),
{
    if prefixes.len() == 0 {
        Seq::empty()
    } else {
        all_prefix_edits(line, prefixes.drop_last()) + prefix_edits(
            line,
            ascii_lower_all(line),
            ascii_lower_all(prefixes.last()),
            0,
        )
    }
}

/// Every range of the line that is to be hidden.
pub open spec fn all_edits(
    line: Seq<char>,
    keys: Seq<Seq<char>>,
    prefixes: Seq<Seq<char>>,
) -> Seq<(int, int)> {
    all_key_edits(line, keys) + all_prefix_edits(line, prefixes)
}

/// Index `i` lies in one of the ranges.
pub open spec fn covered(edits: Seq<(int, int)>, i: int) -> bool {
    exists|k: int| 0 <= k < edits.len() && (#[trigger] edits[k]).0 <= i < edits[k].1
}

/// The first `n` characters of `line`, with each longest run of covered
/// characters replaced by three stars.
pub open spec fn masked_to(line: Seq<char>, edits: Seq<(int, int)>, n: int) -> Seq<char>
    decreases n,
{
    if n <= 0 {
        Seq::empty()
    } else {
        let before = masked_to(line, edits, n - 1);
        if !covered(edits, n - 1) {
            before.push(line[n - 1])
        } else if n == 1 || !covered(edits, n - 2) {
            before + "***"@
        } else {
            before
        }
    }
}

/// The line with its secrets hidden.
pub open spec fn redacted_line(
    line: Seq<char>,
    keys: Seq<Seq<char>>,
    prefixes: Seq<Seq<char>>,
) -> Seq<char> {
    masked_to(line, all_edits(line, keys, prefixes), line.len() as int)
}

/// Where nothing from `a` to `b` is covered, the text appears as it is.
proof fn lemma_mask_plain(line: Seq<char>, edits: Seq<(int, int)>, a: int, b: int)
    requires
        0 <= a <= b <= line.len(),
        forall|i: int| a <= i < b ==> !#[trigger] covered(edits, i),
    ensures
        masked_to(line, edits, b) == masked_to(line, edits, a) + line.subrange(a, b),
    decreases b - a,
{
    if a < b {
        lemma_mask_plain(line, edits, a, b - 1);
        assert(!covered(edits, b - 1));
        assert(line.subrange(a, b) == line.subrange(a, b - 1).push(line[b - 1]));
    } else {
        assert(line.subrange(a, b) == Seq::<char>::empty());
    }
}

/// A longest run of covered characters appears as three stars.
proof fn lemma_mask_run(line: Seq<char>, edits: Seq<(int, int)>, a: int, b: int)
    requires
        0 <= a < b <= line.len(),
        a == 0 || !covered(edits, a - 1),
        forall|i: int| a <= i < b ==> #[trigger] covered(edits, i),
    ensures
        masked_to(line, edits, b) == masked_to(line, edits, a) + "***"@,
    decreases b - a,
{
    assert(covered(edits, b - 1));
    if a + 1 < b {
        assert(covered(edits, b - 2));
        lemma_mask_run(line, edits, a, b - 1);
    }
}

/// Ranges that cover the same characters hide the same.
proof fn lemma_mask_same(line: Seq<char>, e: Seq<(int, int)>, f: Seq<(int, int)>, n: int)
    requires
        forall|i: int| #[trigger] covered(e, i) == covered(f, i),
    ensures
        masked_to(line, e, n) == masked_to(line, f, n),
    decreases n,
{
    if n > 0 {
        lemma_mask_same(line, e, f, n - 1);
        assert(covered(e, n - 1) == covered(f, n - 1));
        assert(covered(e, n - 2) == covered(f, n - 2));
    }
}

/// The ranges as pairs of integers.
pub open spec fn pairs(v: Seq<(usize, usize)>) -> Seq<(int, int)> {
    Seq::new(v.len(), |i: int| (v[i].0 as int, v[i].1 as int))
}

/// One range after another: a range that starts in or right after the last
/// one so far lengthens it, any other range is added.
pub open spec fn merged_edits(edits: Seq<(int, int)>) -> Seq<(int, int)>
    decreases edits.len(),
{
    if edits.len() == 0 {
        Seq::empty()
    } else {
        let m = merged_edits(edits.drop_last());
        let (start, end) = edits.last();
        if m.len() > 0 && start <= m.last().1 {
            m.update(
                m.len() - 1,
                (
                    m.last().0,
                    if m.last().1 > end {
                        m.last().1
                    } else {
                        end
                    },
                ),
            )
        } else {
            m.push((start, end))
        }
    }
}

/// The ranges are ordered by where they start, and none ends before it
/// starts.
pub open spec fn ordered(edits: Seq<(int, int)>) -> bool {
    &&& forall|i: int, j: int| 0 <= i <= j < edits.len() ==> edits[i].0 <= edits[j].0
    &&& forall|i: int| 0 <= i < edits.len() ==> (#[trigger] edits[i]).0 <= edits[i].1
}

/// The ranges follow each other with a gap between each two, and none ends
/// before it starts.
pub open spec fn separated(edits: Seq<(int, int)>) -> bool {
    &&& forall|i: int, j: int| 0 <= i < j < edits.len() ==> edits[i].1 < edits[j].0
    &&& forall|i: int| 0 <= i < edits.len() ==> (#[trigger] edits[i]).0 <= edits[i].1
}

/// No range is empty.
pub open spec fn each_holds_some(edits: Seq<(int, int)>) -> bool {
    forall|i: int| 0 <= i < edits.len() ==> (#[trigger] edits[i]).0 < edits[i].1
}

/// Merging ordered ranges loses no character and gains none, leaves a gap
/// between each two ranges, and makes no empty range of ranges that are not.
pub proof fn merging_keeps_what_is_covered(edits: Seq<(int, int)>)
    requires
        ordered(edits),
    ensures
        separated(merged_edits(edits)),
        forall|i: int| #[trigger] covered(merged_edits(edits), i) == covered(edits, i),
        each_holds_some(edits) ==> each_holds_some(merged_edits(edits)),
{
    lemma_merged(edits);
    if each_holds_some(edits) {
        lemma_merged_holds_some(edits);
    }
}

proof fn lemma_merged_holds_some(edits: Seq<(int, int)>)
    requires
        each_holds_some(edits),
    ensures
        each_holds_some(merged_edits(edits)),
    decreases edits.len(),
{
    if edits.len() > 0 {
        let init = edits.drop_last();
        assert forall|i: int| 0 <= i < init.len() implies (#[trigger] init[i]).0 < init[i].1 by {
            assert(edits[i].0 < edits[i].1);
        }
        lemma_merged_holds_some(init);
        let m = merged_edits(init);
        let out = merged_edits(edits);
        assert(edits[edits.len() - 1].0 < edits[edits.len() - 1].1);
        assert forall|i: int| 0 <= i < out.len() implies (#[trigger] out[i]).0 < out[i].1 by {
            if i < m.len() {
                assert(m[i].0 < m[i].1);
            }
        }
    }
}

proof fn lemma_merged(edits: Seq<(int, int)>)
    requires
        ordered(edits),
    ensures
        separated(merged_edits(edits)),
        forall|i: int| #[trigger] covered(merged_edits(edits), i) == covered(edits, i),
        edits.len() > 0 ==> merged_edits(edits).len() > 0 && merged_edits(edits).last().0
            <= edits.last().0,
    decreases edits.len(),
{
    let out = merged_edits(edits);
    if edits.len() > 0 {
        let init = edits.drop_last();
        let m = merged_edits(init);
        let (start, end) = edits.last();
        assert(ordered(init)) by {
            assert forall|i: int| 0 <= i < init.len() implies (#[trigger] init[i]).0 <= init[i].1 by {
                assert(edits[i].0 <= edits[i].1);
            }
        }
        lemma_merged(init);
        assert(edits[edits.len() - 1].0 <= edits[edits.len() - 1].1);
        if init.len() > 0 {
            assert(edits[edits.len() - 2].0 <= edits[edits.len() - 1].0);
            assert(m.last().0 <= start);
        }
        if m.len() > 0 && start <= m.last().1 {
            let last = m.len() - 1;
            assert(m[last].0 <= m[last].1);
            assert forall|i: int, j: int| 0 <= i < j < out.len() implies out[i].1 < out[j].0 by {
                assert(m[i].1 < m[j].0);
            }
            assert forall|i: int| 0 <= i < out.len() implies (#[trigger] out[i]).0 <= out[i].1 by {
                assert(m[i].0 <= m[i].1);
            }
        } else {
            assert forall|i: int, j: int| 0 <= i < j < out.len() implies out[i].1 < out[j].0 by {
                if j == m.len() {
                    if i < m.len() - 1 {
                        assert(m[i].1 < m[m.len() - 1].0);
                        assert(m[m.len() - 1].0 <= m[m.len() - 1].1);
                    }
                } else {
                    assert(m[i].1 < m[j].0);
                }
            }
        }
        assert forall|i: int| #[trigger] covered(out, i) == covered(edits, i) by {
            assert(covered(m, i) == covered(init, i));
            lemma_covered_push(edits, i);
            if m.len() > 0 && start <= m.last().1 {
                let last = m.len() - 1;
                if covered(out, i) {
                    let k = choose|k: int| 0 <= k < out.len() && (#[trigger] out[k]).0 <= i < out[k].1;
                    if k < last {
                        assert(m[k].0 <= i < m[k].1);
                    } else if i < m[last].1 {
                        assert(m[last].0 <= i < m[last].1);
                    }
                }
                if covered(m, i) {
                    let k = choose|k: int| 0 <= k < m.len() && (#[trigger] m[k]).0 <= i < m[k].1;
                    assert(out[k].0 <= i < out[k].1);
                }
                if start <= i < end {
                    assert(out[last].0 <= i < out[last].1);
                }
            } else {
                assert(out.drop_last() == m);
                lemma_covered_push(out, i);
            }
        }
    }
}

/// A list of ranges covers what its last range and the others cover.
proof fn lemma_covered_push(edits: Seq<(int, int)>, i: int)
    requires
        edits.len() > 0,
    ensures
        covered(edits, i) == (covered(edits.drop_last(), i) || (edits.last().0 <= i
            < edits.last().1)),
{
    let init = edits.drop_last();
    if covered(edits, i) {
        let k = choose|k: int| 0 <= k < edits.len() && (#[trigger] edits[k]).0 <= i < edits[k].1;
        if k < init.len() {
            assert(init[k].0 <= i < init[k].1);
        }
    }
    if covered(init, i) {
        let k = choose|k: int| 0 <= k < init.len() && (#[trigger] init[k]).0 <= i < init[k].1;
        assert(edits[k].0 <= i < edits[k].1);
    }
    if edits.last().0 <= i < edits.last().1 {
        assert(edits[edits.len() - 1].0 <= i < edits[edits.len() - 1].1);
    }
}

/// Merges ranges that overlap or touch. The ranges come ordered by their
/// start.
pub fn merge_edits(edits: Vec<(usize, usize)>) -> (r: Vec<(usize, usize)>)
    ensures
        pairs(r@) == merged_edits(pairs(edits@)),
{
    let mut merged: Vec<(usize, usize)> = Vec::new();
    let mut i: usize = 0;
    assert(pairs(edits@).take(0) == Seq::<(int, int)>::empty());
    while i < edits.len()
        invariant
            i <= edits@.len(),
            pairs(merged@) == merged_edits(pairs(edits@).take(i as int)),
        decreases edits@.len() - i,
    {
        let ghost now = pairs(edits@).take(i + 1);
        let ghost m = pairs(merged@);
        assert(now.drop_last() == pairs(edits@).take(i as int));
        let (start, end) = edits[i];
        assert(now.last() == (start as int, end as int));
        let n: usize = merged.len();
        if n > 0 && start <= merged[n - 1].1 {
            let last = merged[n - 1];
            let reach: usize = if last.1 > end {
                last.1
            } else {
                end
            };
            merged.set(n - 1, (last.0, reach));
            assert(pairs(merged@) == m.update(n - 1, (last.0 as int, reach as int)));
        } else {
            merged.push((start, end));
            assert(pairs(merged@) == m.push((start as int, end as int)));
        }
        i = i + 1;
    }
    assert(pairs(edits@).take(edits@.len() as int) == pairs(edits@));
    merged
}

fn skip_blanks_and_quotes(s: &[char], from: usize) -> (r: usize)
    requires
        from <= s@.len(),
    ensures
        r == past_blanks_and_quotes(s@, from as int),
        from <= r <= s@.len(),
{
    let mut i: usize = from;
    while i < s.len() && (s[i] == ' ' || s[i] == '\t' || s[i] == '"' || s[i] == '\'')
        invariant
            from <= i <= s@.len(),
            past_blanks_and_quotes(s@, from as int) == past_blanks_and_quotes(s@, i as int),
        decreases s@.len() - i,
    {
        i = i + 1;
    }
    i
}

fn skip_blanks(s: &[char], from: usize) -> (r: usize)
    requires
        from <= s@.len(),
    ensures
        r == past_blanks(s@, from as int),
        from <= r <= s@.len(),
{
    let mut i: usize = from;
    while i < s.len() && (s[i] == ' ' || s[i] == '\t')
        invariant
            from <= i <= s@.len(),
            past_blanks(s@, from as int) == past_blanks(s@, i as int),
        decreases s@.len() - i,
    {
        i = i + 1;
    }
    i
}

fn scan_to_space(s: &[char], from: usize) -> (r: usize)
    requires
        from <= s@.len(),
    ensures
        r == to_space(s@, from as int),
        from <= r <= s@.len(),
{
    let mut i: usize = from;
    while i < s.len() && !char_is_space(s[i])
        invariant
            from <= i <= s@.len(),
            to_space(s@, from as int) == to_space(s@, i as int),
        decreases s@.len() - i,
    {
        i = i + 1;
    }
    i
}

fn scan_to_space_or_quote(s: &[char], from: usize) -> (r: usize)
    requires
        from <= s@.len(),
    ensures
        r == to_space_or_quote(s@, from as int),
        from <= r <= s@.len(),
{
    let mut i: usize = from;
    while i < s.len() && !char_is_space(s[i]) && s[i] != '"' && s[i] != '\''
        invariant
            from <= i <= s@.len(),
            to_space_or_quote(s@, from as int) == to_space_or_quote(s@, i as int),
        decreases s@.len() - i,
    {
        i = i + 1;
    }
    i
}

fn end_of_value(s: &[char], v: usize) -> (r: usize)
    requires
        v <= s@.len(),
    ensures
        r == value_end(s@, v as int),
        v <= r <= s@.len(),
{
    proof {
        lemma_value_end_bounds(s@, v as int);
    }
    if v >= s.len() {
        v
    } else if s[v] == '"' || s[v] == '\'' {
        match index_of(s, s[v], v + 1) {
            Some(j) => j + 1,
            None => s.len(),
        }
    } else {
        scan_to_space(s, v)
    }
}

/// Adds the values that `key` is assigned.
fn find_key_edits(
    line: &[char],
    lower: &[char],
    key: &[char],
    out: &mut Vec<(usize, usize)>,
)
    requires
        lower@.len() == line@.len(),
        key@.len() > 0,
    ensures
        pairs(final(out)@) == pairs(old(out)@) + key_edits(line@, lower@, key@, 0),
        in_text(final(out)@, line@.len() as int) == in_text(old(out)@, line@.len() as int),
{
    let ghost start = pairs(out@);
    let ghost ok0 = in_text(out@, line@.len() as int);
    let len: usize = line.len();
    let mut from: usize = 0;
    loop
        invariant
            start == pairs(old(out)@),
            ok0 == in_text(old(out)@, line@.len() as int),
            len == line@.len(),
            lower@.len() == line@.len(),
            key@.len() > 0,
            from <= line@.len(),
            pairs(out@) + key_edits(line@, lower@, key@, from as int) == start + key_edits(
                line@,
                lower@,
                key@,
                0,
            ),
            in_text(out@, line@.len() as int) == ok0,
        decreases line@.len() - from,
    {
        proof {
            lemma_find_from(lower@, key@, from as int);
        }
        match find(lower, key, from) {
            None => {
                return ;
            },
            Some(k) => {
                let k_end: usize = k + key.len();
                let c: usize = skip_blanks_and_quotes(line, k_end);
                if c < line.len() && (line[c] == '=' || line[c] == ':') {
                    let v: usize = skip_blanks(line, c + 1);
                    let e: usize = end_of_value(line, v);
                    if e > v {
                        let ghost before = pairs(out@);
                        let ghost rest = key_edits(line@, lower@, key@, e as int);
                        let ghost raw = out@;
                        out.push((v, e));
                        assert(pairs(out@) == before.push((v as int, e as int)));
                        assert(pairs(out@) + rest == before + (seq![(v as int, e as int)] + rest));
                        proof {
                            lemma_in_text_push(raw, v, e, line@.len() as int);
                        }
                    }
                    from = e;
                } else {
                    from = k_end;
                }
            },
        }
    }
}

/// Every range lies in a text of `n` characters and is not empty.
spec fn in_text(edits: Seq<(usize, usize)>, n: int) -> bool {
    forall|i: int|
        0 <= i < edits.len() ==> (#[trigger] edits[i]).0 < edits[i].1 && edits[i].1 <= n
}

proof fn lemma_in_text_push(edits: Seq<(usize, usize)>, a: usize, b: usize, n: int)
    requires
        a < b <= n,
    ensures
        in_text(edits.push((a, b)), n) == in_text(edits, n),
{
    let more = edits.push((a, b));
    if in_text(more, n) {
        assert forall|i: int| 0 <= i < edits.len() implies (#[trigger] edits[i]).0 < edits[i].1
            && edits[i].1 <= n by {
            assert(more[i] == edits[i]);
        }
    }
}

/// Whether a token may start at index `p`.
fn token_may_start(line: &[char], p: usize) -> (r: bool)
    requires
        p <= line@.len(),
    ensures
        r == at_token_start(line@, p as int),
{
    if p == 0 {
        return true;
    }
    let c: char = line[p - 1];
    char_is_space(c) || c == '"' || c == '\''
}

/// Adds the tokens that begin with `prefix`.
fn find_prefix_edits(
    line: &[char],
    lower: &[char],
    prefix: &[char],
    out: &mut Vec<(usize, usize)>,
)
    requires
        lower@.len() == line@.len(),
        prefix@.len() > 0,
    ensures
        pairs(final(out)@) == pairs(old(out)@) + prefix_edits(line@, lower@, prefix@, 0),
        in_text(final(out)@, line@.len() as int) == in_text(old(out)@, line@.len() as int),
{
    let ghost start = pairs(out@);
    let ghost ok0 = in_text(out@, line@.len() as int);
    let len: usize = line.len();
    let mut from: usize = 0;
    loop
        invariant
            start == pairs(old(out)@),
            ok0 == in_text(old(out)@, line@.len() as int),
            len == line@.len(),
            lower@.len() == line@.len(),
            prefix@.len() > 0,
            from <= line@.len(),
            pairs(out@) + prefix_edits(line@, lower@, prefix@, from as int) == start
                + prefix_edits(line@, lower@, prefix@, 0),
            in_text(out@, line@.len() as int) == ok0,
        decreases line@.len() - from,
    {
        proof {
            lemma_find_from(lower@, prefix@, from as int);
        }
        match find(lower, prefix, from) {
            None => {
                return ;
            },
            Some(p) => {
                let past: usize = p + prefix.len();
                if token_may_start(line, p) {
                    let e: usize = scan_to_space_or_quote(line, p);
                    let next: usize = if e > past {
                        e
                    } else {
                        past
                    };
                    if e > p {
                        let ghost before = pairs(out@);
                        let ghost rest = prefix_edits(line@, lower@, prefix@, next as int);
                        let ghost raw = out@;
                        out.push((p, e));
                        assert(pairs(out@) == before.push((p as int, e as int)));
                        assert(pairs(out@) + rest == before + (seq![(p as int, e as int)] + rest));
                        proof {
                            lemma_in_text_push(raw, p, e, line@.len() as int);
                        }
                    }
                    from = next;
                } else {
                    from = past;
                }
            },
        }
    }
}

/// Puts the ranges in the order of their start.
fn sort_edits(edits: &Vec<(usize, usize)>, n: Ghost<int>) -> (r: Vec<(usize, usize)>)
    requires
        in_text(edits@, n@),
    ensures
        in_text(r@, n@),
        ordered(pairs(r@)),
        forall|i: int| #[trigger] covered(pairs(r@), i) == covered(pairs(edits@), i),
{
    let mut out: Vec<(usize, usize)> = Vec::new();
    let mut k: usize = 0;
    assert(pairs(edits@).take(0) == Seq::<(int, int)>::empty());
    assert(pairs(out@) == Seq::<(int, int)>::empty());
    while k < edits.len()
        invariant
            k <= edits@.len(),
            in_text(edits@, n@),
            in_text(out@, n@),
            ordered(pairs(out@)),
            forall|i: int| #[trigger]
                covered(pairs(out@), i) == covered(pairs(edits@).take(k as int), i),
        decreases edits@.len() - k,
    {
        let e = edits[k];
        let ghost before = out@;
        let mut at: usize = out.len();
        while at > 0 && out[at - 1].0 > e.0
            invariant
                at <= out@.len(),
                out@ == before,
                forall|j: int| at <= j < out@.len() ==> (#[trigger] out@[j]).0 > e.0,
            decreases at,
        {
            at = at - 1;
        }
        out.insert(at, e);
        proof {
            assert(out@ == before.insert(at as int, e));
            lemma_insert_ordered(before, at as int, e, n@);
            assert forall|i: int| #[trigger]
                covered(pairs(out@), i) == covered(pairs(edits@).take(k + 1), i) by {
                lemma_insert_covers(before, at as int, e, i);
                let now = pairs(edits@).take(k + 1);
                assert(now.drop_last() == pairs(edits@).take(k as int));
                assert(now.last() == (e.0 as int, e.1 as int));
                lemma_covered_push(now, i);
                assert(covered(pairs(before), i) == covered(pairs(edits@).take(k as int), i));
            }
        }
        k = k + 1;
    }
    assert(pairs(edits@).take(edits@.len() as int) == pairs(edits@));
    out
}

/// Inserting where all later ranges start later, and no earlier one does,
/// keeps the order.
proof fn lemma_insert_ordered(v: Seq<(usize, usize)>, at: int, e: (usize, usize), n: int)
    requires
        0 <= at <= v.len(),
        ordered(pairs(v)),
        in_text(v, n),
        e.0 < e.1 <= n,
        forall|j: int| at <= j < v.len() ==> (#[trigger] v[j]).0 > e.0,
        at > 0 ==> v[at - 1].0 <= e.0,
    ensures
        ordered(pairs(v.insert(at, e))),
        in_text(v.insert(at, e), n),
{
    let w = v.insert(at, e);
    let p = pairs(w);
    assert forall|i: int, j: int| 0 <= i <= j < p.len() implies p[i].0 <= p[j].0 by {
        let i0 = if i < at { i } else { i - 1 };
        let j0 = if j < at { j } else { j - 1 };
        if i != at && j != at {
            assert(pairs(v)[i0].0 <= pairs(v)[j0].0);
        } else if i == at && j > at {
            assert(v[j0].0 > e.0);
        } else if j == at && i < at {
            assert(pairs(v)[i].0 <= pairs(v)[at - 1].0);
        }
    }
    assert forall|i: int| 0 <= i < p.len() implies (#[trigger] p[i]).0 < p[i].1 by {
        let i0 = if i < at { i } else { i - 1 };
        if i != at {
            assert(v[i0].0 < v[i0].1);
        }
    }
    assert forall|i: int| 0 <= i < w.len() implies (#[trigger] w[i]).0 < w[i].1 && w[i].1 <= n by {
        let i0 = if i < at { i } else { i - 1 };
        if i != at {
            assert(v[i0].0 < v[i0].1);
        }
    }
}

proof fn lemma_insert_covers(v: Seq<(usize, usize)>, at: int, e: (usize, usize), i: int)
    requires
        0 <= at <= v.len(),
    ensures
        covered(pairs(v.insert(at, e)), i) == (covered(pairs(v), i) || e.0 <= i < e.1),
{
    let w = v.insert(at, e);
    let p = pairs(w);
    let q = pairs(v);
    if covered(p, i) {
        let k = choose|k: int| 0 <= k < p.len() && (#[trigger] p[k]).0 <= i < p[k].1;
        let k0 = if k < at { k } else { k - 1 };
        if k != at {
            assert(q[k0].0 <= i < q[k0].1);
        }
    }
    if covered(q, i) {
        let k = choose|k: int| 0 <= k < q.len() && (#[trigger] q[k]).0 <= i < q[k].1;
        let k1 = if k < at { k } else { k + 1 };
        assert(p[k1].0 <= i < p[k1].1);
    }
    if e.0 <= i < e.1 {
        assert(p[at].0 <= i < p[at].1);
    }
}

/// Writes three stars over each of the separated ranges.
fn mask(line: &[char], ranges: &Vec<(usize, usize)>) -> (r: Vec<char>)
    requires
        separated(pairs(ranges@)),
        in_text(ranges@, line@.len() as int),
    ensures
        r@ == masked_to(line@, pairs(ranges@), line@.len() as int),
{
    let ghost p = pairs(ranges@);
    let mut out: Vec<char> = Vec::new();
    let mut cursor: usize = 0;
    let mut k: usize = 0;
    while k < ranges.len()
        invariant
            k <= ranges@.len(),
            cursor <= line@.len(),
            p == pairs(ranges@),
            separated(p),
            in_text(ranges@, line@.len() as int),
            k == 0 ==> cursor == 0,
            k > 0 ==> cursor == p[k - 1].1,
            out@ == masked_to(line@, p, cursor as int),
        decreases ranges@.len() - k,
    {
        let (start, end) = ranges[k];
        proof {
            assert(p[k as int] == (start as int, end as int));
            assert(ranges@[k as int].0 < ranges@[k as int].1);
            if k > 0 {
                assert(p[k - 1].1 < p[k as int].0);
            }
            assert forall|i: int| cursor <= i < start implies !#[trigger] covered(p, i) by {
                lemma_gap(p, k as int, i);
            }
            lemma_mask_plain(line@, p, cursor as int, start as int);
            assert forall|i: int| start <= i < end implies #[trigger] covered(p, i) by {
                assert(p[k as int].0 <= i < p[k as int].1);
            }
            if start > 0 {
                lemma_gap(p, k as int, start - 1);
            }
            lemma_mask_run(line@, p, start as int, end as int);
        }
        let plain = sub_chars(line, cursor, start);
        push_all(&mut out, plain.as_slice());
        push_text(&mut out, "***");
        cursor = end;
        k = k + 1;
    }
    proof {
        assert forall|i: int| cursor <= i < line@.len() implies !#[trigger] covered(p, i) by {
            lemma_gap(p, p.len() as int, i);
        }
        lemma_mask_plain(line@, p, cursor as int, line@.len() as int);
    }
    let plain = sub_chars(line, cursor, line.len());
    push_all(&mut out, plain.as_slice());
    out
}

/// Between the end of one separated range and the start of the next nothing
/// is covered.
proof fn lemma_gap(p: Seq<(int, int)>, k: int, i: int)
    requires
        separated(p),
        0 <= k <= p.len(),
        k > 0 ==> p[k - 1].1 <= i,
        k < p.len() ==> i < p[k].0,
    ensures
        !covered(p, i),
{
    if covered(p, i) {
        let j = choose|j: int| 0 <= j < p.len() && (#[trigger] p[j]).0 <= i < p[j].1;
        if j < k {
            if j < k - 1 {
                assert(p[j].1 < p[k - 1].0);
                assert(p[k - 1].0 <= p[k - 1].1);
            }
        } else if j > k {
            assert(p[k].1 < p[j].0);
            assert(p[k].0 <= p[k].1);
        }
    }
}

/// The texts of a list of string slices.
pub open spec fn str_views(v: Seq<&str>) -> Seq<Seq<char>> {
    Seq::new(v.len(), |i: int| v[i]@)
}

/// No text of the list is empty.
pub open spec fn none_empty(v: Seq<Seq<char>>) -> bool {
    forall|i: int| 0 <= i < v.len() ==> (#[trigger] v[i]).len() > 0
}

/// Hides the secrets of one line: the values assigned to names that hold one
/// of the keys, and the tokens that begin with one of the prefixes.
pub fn redact_line_precise(line: &str, sensitive_keys: &[&str], key_prefixes: &[&str]) -> (r:
    String)
    requires
        none_empty(str_views(sensitive_keys@)),
        none_empty(str_views(key_prefixes@)),
    ensures
        r@ == redacted_line(line@, str_views(sensitive_keys@), str_views(key_prefixes@)),
{
    let chars = to_chars(line);
    let lower = chars_ascii_lower(chars.as_slice());
    let ghost keys = str_views(sensitive_keys@);
    let ghost prefixes = str_views(key_prefixes@);
    let mut edits: Vec<(usize, usize)> = Vec::new();
    let mut i: usize = 0;
    assert(keys.take(0) == Seq::<Seq<char>>::empty());
    assert(pairs(edits@) == Seq::<(int, int)>::empty());
    while i < sensitive_keys.len()
        invariant
            i <= sensitive_keys@.len(),
            keys == str_views(sensitive_keys@),
            none_empty(keys),
            chars@ == line@,
            lower@ == ascii_lower_all(line@),
            pairs(edits@) == all_key_edits(line@, keys.take(i as int)),
            in_text(edits@, line@.len() as int),
        decreases sensitive_keys@.len() - i,
    {
        let key = to_chars(sensitive_keys[i]);
        assert(key@ == keys[i as int]);
        assert(keys.take(i + 1).drop_last() == keys.take(i as int));
        assert(keys.take(i + 1).last() == keys[i as int]);
        find_key_edits(chars.as_slice(), lower.as_slice(), key.as_slice(), &mut edits);
        i = i + 1;
    }
    assert(keys.take(keys.len() as int) == keys);
    let ghost from_keys = pairs(edits@);
    let mut i: usize = 0;
    assert(prefixes.take(0) == Seq::<Seq<char>>::empty());
    assert(from_keys + Seq::<(int, int)>::empty() == from_keys);
    while i < key_prefixes.len()
        invariant
            i <= key_prefixes@.len(),
            prefixes == str_views(key_prefixes@),
            none_empty(prefixes),
            chars@ == line@,
            lower@ == ascii_lower_all(line@),
            pairs(edits@) == from_keys + all_prefix_edits(line@, prefixes.take(i as int)),
            in_text(edits@, line@.len() as int),
        decreases key_prefixes@.len() - i,
    {
        let prefix = to_chars(key_prefixes[i]);
        assert(prefix@ == prefixes[i as int]);
        let prefix_lower = chars_ascii_lower(prefix.as_slice());
        assert(prefixes.take(i + 1).drop_last() == prefixes.take(i as int));
        assert(prefixes.take(i + 1).last() == prefixes[i as int]);
        let ghost before = pairs(edits@);
        find_prefix_edits(chars.as_slice(), lower.as_slice(), prefix_lower.as_slice(), &mut edits);
        assert(pairs(edits@) == from_keys + all_prefix_edits(line@, prefixes.take(i + 1)));
        i = i + 1;
    }
    assert(prefixes.take(prefixes.len() as int) == prefixes);
    let sorted = sort_edits(&edits, Ghost(line@.len() as int));
    proof {
        let s = pairs(sorted@);
        assert forall|j: int| 0 <= j < s.len() implies (#[trigger] s[j]).0 < s[j].1 by {
            assert(sorted@[j].0 < sorted@[j].1);
        }
        merging_keeps_what_is_covered(pairs(sorted@));
        lemma_merged_in_text(pairs(sorted@), line@.len() as int);
    }
    let merged = merge_edits(sorted);
    proof {
        let p = pairs(merged@);
        assert forall|j: int| 0 <= j < merged@.len() implies (#[trigger] merged@[j]).0
            < merged@[j].1 && merged@[j].1 <= line@.len() by {
            assert(p[j].0 < p[j].1);
        }
        lemma_mask_same(
            line@,
            p,
            all_edits(line@, keys, prefixes),
            line@.len() as int,
        );
    }
    let out = mask(chars.as_slice(), &merged);
    from_chars(out.as_slice())
}

/// Merging never reaches past the ranges it merges.
proof fn lemma_merged_in_text(edits: Seq<(int, int)>, n: int)
    requires
        forall|i: int| 0 <= i < edits.len() ==> (#[trigger] edits[i]).1 <= n,
    ensures
        forall|i: int|
            0 <= i < merged_edits(edits).len() ==> (#[trigger] merged_edits(edits)[i]).1 <= n,
    decreases edits.len(),
{
    if edits.len() > 0 {
        let init = edits.drop_last();
        assert forall|i: int| 0 <= i < init.len() implies (#[trigger] init[i]).1 <= n by {
            assert(edits[i].1 <= n);
        }
        lemma_merged_in_text(init, n);
        assert(edits[edits.len() - 1].1 <= n);
        let m = merged_edits(init);
        let out = merged_edits(edits);
        assert forall|i: int| 0 <= i < out.len() implies (#[trigger] out[i]).1 <= n by {
            if i < m.len() {
                assert(m[i].1 <= n);
            }
        }
    }
}

/// Names whose assigned value is a secret.
pub open spec fn sensitive_keys() -> Seq<Seq<char>> {
    seq![
        "password"@,
        "secret"@,
        "token"@,
        "api_key"@,
        "apikey"@,
        "private_key"@,
        "access_key"@,
    ]
}

/// How well-known kinds of keys begin.
pub open spec fn key_prefixes() -> Seq<Seq<char>> {
    seq!["sk-"@, "ghp_"@, "github_pat_"@, "AKIA"@, "xoxb-"@]
}

/// The lines with their secrets hidden, each followed by a line feed.
pub open spec fn redacted_lines(ls: Seq<Seq<char>>) -> Seq<char>
    decreases ls.len(),
{
    if ls.len() == 0 {
        Seq::empty()
    } else {
        (redacted_lines(ls.drop_last()) + redacted_line(
            ls.last(),
            sensitive_keys(),
            key_prefixes(),
        )).push('\n')
    }
}

/// The text with its secrets hidden line by line. It ends with a line feed
/// exactly where the text does.
pub open spec fn redacted(text: Seq<char>) -> Seq<char> {
    let all = redacted_lines(lines(text));
    if text.len() > 0 && text.last() != '\n' {
        all.drop_last()
    } else {
        all
    }
}

/// Hidden line by line: what stands in one line has no part in what is hidden
/// in another, so a text can be parted behind any line feed.
pub proof fn lines_are_hidden_one_by_one(a: Seq<char>, b: Seq<char>)
    ensures
        redacted(a.push('\n') + b) == redacted(a.push('\n')) + redacted(b),
{
    let head = a.push('\n');
    let whole = head + b;
    lines_part_at_line_feeds(a, b);
    lemma_redacted_lines_part(lines(head), lines(b));
    assert(head.last() == '\n');
    if b.len() == 0 {
        assert(whole == head);
        assert(redacted(head) + redacted(b) == redacted(head));
    } else {
        assert(whole.last() == b.last());
        lemma_index_from(b, '\n', 0);
        let second = redacted_lines(lines(b));
        assert(lines(b).len() > 0);
        assert(second.len() > 0);
        let first = redacted_lines(lines(head));
        assert((first + second).drop_last() == first + second.drop_last());
    }
}

proof fn lemma_redacted_lines_part(a: Seq<Seq<char>>, b: Seq<Seq<char>>)
    ensures
        redacted_lines(a + b) == redacted_lines(a) + redacted_lines(b),
    decreases b.len(),
{
    if b.len() == 0 {
        assert(a + b == a);
        assert(redacted_lines(a) + redacted_lines(b) == redacted_lines(a));
    } else {
        lemma_redacted_lines_part(a, b.drop_last());
        assert((a + b).drop_last() == a + b.drop_last());
        assert((a + b).last() == b.last());
        assert(redacted_lines(a + b) == redacted_lines(a) + redacted_lines(b));
    }
}

fn key_list() -> (r: Vec<&'static str>)
    ensures
        str_views(r@) == sensitive_keys(),
        none_empty(str_views(r@)),
{
    proof {
        reveal_strlit("password");
        reveal_strlit("secret");
        reveal_strlit("token");
        reveal_strlit("api_key");
        reveal_strlit("apikey");
        reveal_strlit("private_key");
        reveal_strlit("access_key");
    }
    let mut v: Vec<&'static str> = Vec::new();
    v.push("password");
    v.push("secret");
    v.push("token");
    v.push("api_key");
    v.push("apikey");
    v.push("private_key");
    v.push("access_key");
    assert(str_views(v@) == sensitive_keys());
    v
}

fn prefix_list() -> (r: Vec<&'static str>)
    ensures
        str_views(r@) == key_prefixes(),
        none_empty(str_views(r@)),
{
    proof {
        reveal_strlit("sk-");
        reveal_strlit("ghp_");
        reveal_strlit("github_pat_");
        reveal_strlit("AKIA");
        reveal_strlit("xoxb-");
    }
    let mut v: Vec<&'static str> = Vec::new();
    v.push("sk-");
    v.push("ghp_");
    v.push("github_pat_");
    v.push("AKIA");
    v.push("xoxb-");
    assert(str_views(v@) == key_prefixes());
    v
}

/// Hides the secrets in the output of a command.
pub fn redact_secrets(text: &str) -> (r: String)
    ensures
        r@ == redacted(text@),
{
    let chars = to_chars(text);
    let keys = key_list();
    let prefixes = prefix_list();
    let ls = split_lines(chars.as_slice());
    let ghost all = lines(text@);
    let mut out: Vec<char> = Vec::new();
    let mut i: usize = 0;
    assert(all.take(0) == Seq::<Seq<char>>::empty());
    while i < ls.len()
        invariant
            i <= ls@.len(),
            char_views(ls@) == all,
            str_views(keys@) == sensitive_keys(),
            none_empty(str_views(keys@)),
            str_views(prefixes@) == key_prefixes(),
            none_empty(str_views(prefixes@)),
            out@ == redacted_lines(all.take(i as int)),
        decreases ls@.len() - i,
    {
        let line = from_chars(ls[i].as_slice());
        assert(line@ == all[i as int]);
        let clean = redact_line_precise(line.as_str(), keys.as_slice(), prefixes.as_slice());
        push_text(&mut out, clean.as_str());
        out.push('\n');
        assert(all.take(i + 1).drop_last() == all.take(i as int));
        i = i + 1;
    }
    assert(all.take(all.len() as int) == all);
    proof {
        lemma_index_from(text@, '\n', 0);
        if text@.len() > 0 {
            assert(all.len() > 0);
            assert(out@.len() > 0);
        }
    }
    if chars.len() > 0 && chars[chars.len() - 1] != '\n' {
        out.pop();
    }
    from_chars(out.as_slice())
}

/// A line in which no key and no prefix occurs stays as it is.
pub proof fn line_without_secrets_is_kept(
    line: Seq<char>,
    keys: Seq<Seq<char>>,
    prefixes: Seq<Seq<char>>,
)
    requires
        none_empty(keys),
        none_empty(prefixes),
        forall|i: int|
            0 <= i < keys.len() ==> find_from(ascii_lower_all(line), #[trigger] keys[i], 0) is None,
        forall|i: int|
            0 <= i < prefixes.len() ==> find_from(
                ascii_lower_all(line),
                ascii_lower_all(#[trigger] prefixes[i]),
                0,
            ) is None,
    ensures
        redacted_line(line, keys, prefixes) == line,
{
    lemma_no_key_edits(line, keys);
    lemma_no_prefix_edits(line, prefixes);
    let edits = all_edits(line, keys, prefixes);
    assert(edits == Seq::<(int, int)>::empty());
    assert forall|i: int| 0 <= i < line.len() implies !#[trigger] covered(edits, i) by {}
    lemma_mask_plain(line, edits, 0, line.len() as int);
    assert(line.subrange(0, line.len() as int) == line);
}

proof fn lemma_no_key_edits(line: Seq<char>, keys: Seq<Seq<char>>)
    requires
        none_empty(keys),
        forall|i: int|
            0 <= i < keys.len() ==> find_from(ascii_lower_all(line), #[trigger] keys[i], 0) is None,
    ensures
        all_key_edits(line, keys) == Seq::<(int, int)>::empty(),
    decreases keys.len(),
{
    if keys.len() > 0 {
        let init = keys.drop_last();
        assert(keys[keys.len() - 1] == keys.last());
        assert(keys.last().len() > 0);
        assert forall|i: int| 0 <= i < init.len() implies find_from(
            ascii_lower_all(line),
            #[trigger] init[i],
            0,
        ) is None && init[i].len() > 0 by {
            assert(keys[i] == init[i]);
        }
        lemma_no_key_edits(line, init);
    }
}

proof fn lemma_no_prefix_edits(line: Seq<char>, prefixes: Seq<Seq<char>>)
    requires
        none_empty(prefixes),
        forall|i: int|
            0 <= i < prefixes.len() ==> find_from(
                ascii_lower_all(line),
                ascii_lower_all(#[trigger] prefixes[i]),
                0,
            ) is None,
    ensures
        all_prefix_edits(line, prefixes) == Seq::<(int, int)>::empty(),
    decreases prefixes.len(),
{
    if prefixes.len() > 0 {
        let init = prefixes.drop_last();
        assert(prefixes[prefixes.len() - 1] == prefixes.last());
        assert(prefixes.last().len() > 0);
        assert forall|i: int| 0 <= i < init.len() implies find_from(
            ascii_lower_all(line),
            ascii_lower_all(#[trigger] init[i]),
            0,
        ) is None && init[i].len() > 0 by {
            assert(prefixes[i] == init[i]);
        }
        lemma_no_prefix_edits(line, init);
    }
}

/// What a masked text shows does not depend on the characters that are
/// hidden: two lines that agree wherever nothing is covered appear the same.
pub proof fn mask_shows_nothing_hidden(
    a: Seq<char>,
    b: Seq<char>,
    edits: Seq<(int, int)>,
    n: int,
)
    requires
        a.len() == b.len(),
        0 <= n <= a.len(),
        forall|i: int| 0 <= i < a.len() && !#[trigger] covered(edits, i) ==> a[i] == b[i],
    ensures
        masked_to(a, edits, n) == masked_to(b, edits, n),
    decreases n,
{
    if n > 0 {
        mask_shows_nothing_hidden(a, b, edits, n - 1);
    }
}

/// What a key that ends at `k_end` is assigned: after the key come blanks or
/// quotation marks, then `=` or `:`, then the value.
pub open spec fn assigned_value(line: Seq<char>, k_end: int) -> Option<(int, int)> {
    let c = past_blanks_and_quotes(line, k_end);
    if c < line.len() && (line[c] == '=' || line[c] == ':') {
        let v = past_blanks(line, c + 1);
        Some((v, value_end(line, v)))
    } else {
        None
    }
}

/// A key that can be told from what follows it: nothing in it separates a key
/// from its value, and it does not overlap itself.
pub open spec fn is_plain_key(key: Seq<char>) -> bool {
    &&& key.len() > 0
    &&& !is_blank_or_tab(key[0]) && !is_quote(key[0]) && key[0] != '=' && key[0] != ':'
    &&& forall|j: int| 0 < j < key.len() ==> #[trigger] key[j] != key[0]
}

/// A prefix in lower case that no token starts within.
pub open spec fn is_plain_prefix(prefix: Seq<char>) -> bool {
    &&& prefix.len() > 0
    &&& forall|j: int| 0 <= j < prefix.len() ==> !ends_before_token(#[trigger] prefix[j])
}

/// Scanning passes over nothing but what it is to pass over.
proof fn lemma_scanned(s: Seq<char>, i: int, j: int)
    requires
        0 <= i <= s.len(),
    ensures
        i <= j < past_blanks_and_quotes(s, i) ==> is_blank_or_tab(s[j]) || is_quote(s[j]),
        i <= j < past_blanks(s, i) ==> is_blank_or_tab(s[j]),
        i <= j < to_space_or_quote(s, i) ==> to_space_or_quote(s, j) == to_space_or_quote(s, i),
    decreases s.len() - i,
{
    if i < s.len() && i < j {
        lemma_scanned(s, i + 1, j);
    }
}

/// Where one text stands in another, each of its characters stands there.
proof fn lemma_occurs_char(s: Seq<char>, pat: Seq<char>, k: int, j: int)
    requires
        occurs_at(s, pat, k),
        0 <= j < pat.len(),
    ensures
        s[k + j] == pat[j],
{
    assert(s.subrange(k, k + pat.len())[j] == s[k + j]);
}

proof fn lemma_every_value(
    line: Seq<char>,
    key: Seq<char>,
    from: int,
    k: int,
    i: int,
)
    requires
        is_plain_key(key),
        0 <= from <= k,
        occurs_at(ascii_lower_all(line), key, k),
        assigned_value(line, k + key.len()) matches Some(r) && r.0 <= i < r.1,
    ensures
        covered(key_edits(line, ascii_lower_all(line), key, from), k) || covered(
            key_edits(line, ascii_lower_all(line), key, from),
            i,
        ),
    decreases line.len() - from,
{
    let lower = ascii_lower_all(line);
    lemma_find_from(lower, key, from);
    let k0 = find_from(lower, key, from)->0;
    let k_end = k0 + key.len();
    let own = key_edits(line, lower, key, from);
    lemma_scan_bounds(line, k_end);
    let c = past_blanks_and_quotes(line, k_end);
    let v = past_blanks(line, c + 1);
    let e = value_end(line, v);
    let assigned = c < line.len() && (line[c] == '=' || line[c] == ':');
    if assigned {
        lemma_scan_bounds(line, c + 1);
        lemma_value_end_bounds(line, v);
    }
    if k0 == k {
        assert(own[0] == (v, e));
    } else {
        lemma_occurs_char(lower, key, k, 0);
        if k < k_end {
            lemma_occurs_char(lower, key, k0, k - k0);
        }
        assert(k >= k_end);
        if assigned {
            let rest = key_edits(line, lower, key, e);
            assert(own == if e > v {
                seq![(v, e)] + rest
            } else {
                rest
            });
            if k < v {
                lemma_scanned(line, k_end, k);
                lemma_scanned(line, c + 1, k);
                assert(lower[k] == ascii_lower(line[k]));
            }
            assert(k >= v);
            if k < e {
                assert(own[0] == (v, e));
            } else {
                lemma_every_value(line, key, e, k, i);
                lemma_covered_rest(own, rest, k);
                lemma_covered_rest(own, rest, i);
            }
        } else {
            lemma_every_value(line, key, k_end, k, i);
        }
    }
}

/// What the end of a list of ranges covers, the list covers.
proof fn lemma_covered_rest(all: Seq<(int, int)>, rest: Seq<(int, int)>, i: int)
    requires
        all == rest || all.len() > 0 && all == seq![all[0]] + rest,
    ensures
        covered(rest, i) ==> covered(all, i),
{
    if covered(rest, i) && all != rest {
        let n = choose|n: int| 0 <= n < rest.len() && (#[trigger] rest[n]).0 <= i < rest[n].1;
        assert(all[n + 1] == rest[n]);
    }
}

/// Every value that is assigned to a key is hidden whole, unless the key
/// itself stands in what is hidden.
pub proof fn every_assigned_value_is_hidden(
    line: Seq<char>,
    keys: Seq<Seq<char>>,
    prefixes: Seq<Seq<char>>,
    which: int,
    k: int,
    i: int,
)
    requires
        0 <= which < keys.len(),
        is_plain_key(keys[which]),
        occurs_at(ascii_lower_all(line), keys[which], k),
        assigned_value(line, k + keys[which].len()) matches Some(r) && r.0 <= i < r.1,
    ensures
        covered(all_edits(line, keys, prefixes), k) || covered(
            all_edits(line, keys, prefixes),
            i,
        ),
{
    lemma_every_value(line, keys[which], 0, k, i);
    let own = key_edits(line, ascii_lower_all(line), keys[which], 0);
    let at = if covered(own, k) { k } else { i };
    lemma_key_part(line, keys, which, at);
    let all_keys = all_key_edits(line, keys);
    let n = choose|n: int|
        0 <= n < all_keys.len() && (#[trigger] all_keys[n]).0 <= at < all_keys[n].1;
    assert(all_edits(line, keys, prefixes)[n] == all_keys[n]);
}

proof fn lemma_every_token(line: Seq<char>, prefix: Seq<char>, from: int, p: int, i: int)
    requires
        is_plain_prefix(prefix),
        0 <= from <= p,
        occurs_at(ascii_lower_all(line), prefix, p),
        at_token_start(line, p),
        p <= i < to_space_or_quote(line, p),
    ensures
        covered(prefix_edits(line, ascii_lower_all(line), prefix, from), i),
    decreases line.len() - from,
{
    let lower = ascii_lower_all(line);
    lemma_find_from(lower, prefix, from);
    let p0 = find_from(lower, prefix, from)->0;
    let past = p0 + prefix.len();
    let own = prefix_edits(line, lower, prefix, from);
    lemma_scan_bounds(line, p0);
    let e = to_space_or_quote(line, p0);
    let next = if !at_token_start(line, p0) || e <= past { past } else { e };
    let rest = prefix_edits(line, lower, prefix, next);
    assert(own == if at_token_start(line, p0) && e > p0 {
        seq![(p0, e)] + rest
    } else {
        rest
    });
    if p0 == p {
        assert(own[0] == (p, e));
    } else if p >= next {
        lemma_every_token(line, prefix, next, p, i);
        lemma_covered_rest(own, rest, i);
    } else if p < past {
        lemma_occurs_char(lower, prefix, p0, p - 1 - p0);
        assert(lower[p - 1] == ascii_lower(line[p - 1]));
        assert(!ends_before_token(prefix[p - 1 - p0]));
    } else {
        lemma_scanned(line, p0, p);
        assert(own[0] == (p0, e));
    }
}

/// Every token that begins like a well-known kind of key is hidden whole.
pub proof fn every_token_like_a_key_is_hidden(
    line: Seq<char>,
    keys: Seq<Seq<char>>,
    prefixes: Seq<Seq<char>>,
    which: int,
    p: int,
    i: int,
)
    requires
        0 <= which < prefixes.len(),
        is_plain_prefix(ascii_lower_all(prefixes[which])),
        occurs_at(ascii_lower_all(line), ascii_lower_all(prefixes[which]), p),
        at_token_start(line, p),
        p <= i < to_space_or_quote(line, p),
    ensures
        covered(all_edits(line, keys, prefixes), i),
{
    lemma_every_token(line, ascii_lower_all(prefixes[which]), 0, p, i);
    lemma_prefix_part(line, prefixes, which, i);
    let all_keys = all_key_edits(line, keys);
    let all_prefixes = all_prefix_edits(line, prefixes);
    let n = choose|n: int|
        0 <= n < all_prefixes.len() && (#[trigger] all_prefixes[n]).0 <= i < all_prefixes[n].1;
    assert(all_edits(line, keys, prefixes)[all_keys.len() + n] == all_prefixes[n]);
}

/// What one prefix hides, all prefixes together hide.
proof fn lemma_prefix_part(line: Seq<char>, prefixes: Seq<Seq<char>>, which: int, i: int)
    requires
        0 <= which < prefixes.len(),
        covered(
            prefix_edits(line, ascii_lower_all(line), ascii_lower_all(prefixes[which]), 0),
            i,
        ),
    ensures
        covered(all_prefix_edits(line, prefixes), i),
    decreases prefixes.len(),
{
    let init = all_prefix_edits(line, prefixes.drop_last());
    let own = prefix_edits(line, ascii_lower_all(line), ascii_lower_all(prefixes.last()), 0);
    let all = all_prefix_edits(line, prefixes);
    assert(all == init + own);
    if which == prefixes.len() - 1 {
        let k = choose|k: int| 0 <= k < own.len() && (#[trigger] own[k]).0 <= i < own[k].1;
        assert(all[init.len() + k] == own[k]);
    } else {
        lemma_prefix_part(line, prefixes.drop_last(), which, i);
        let k = choose|k: int| 0 <= k < init.len() && (#[trigger] init[k]).0 <= i < init[k].1;
        assert(all[k] == init[k]);
    }
}

/// The keys and prefixes that are looked for in the output of commands are
/// plain, so that every value and every token is found.
pub proof fn known_secrets_are_plain()
    ensures
        forall|w: int| 0 <= w < sensitive_keys().len() ==> is_plain_key(#[trigger] sensitive_keys()[w]),
        forall|w: int|
            0 <= w < key_prefixes().len() ==> is_plain_prefix(
                ascii_lower_all(#[trigger] key_prefixes()[w]),
            ),
{
    reveal_strlit("password");
    reveal_strlit("secret");
    reveal_strlit("token");
    reveal_strlit("api_key");
    reveal_strlit("apikey");
    reveal_strlit("private_key");
    reveal_strlit("access_key");
    reveal_strlit("sk-");
    reveal_strlit("ghp_");
    reveal_strlit("github_pat_");
    reveal_strlit("AKIA");
    reveal_strlit("xoxb-");
}

/// What one key hides, all keys together hide.
proof fn lemma_key_part(line: Seq<char>, keys: Seq<Seq<char>>, which: int, i: int)
    requires
        0 <= which < keys.len(),
        covered(key_edits(line, ascii_lower_all(line), keys[which], 0), i),
    ensures
        covered(all_key_edits(line, keys), i),
    decreases keys.len(),
{
    let init = all_key_edits(line, keys.drop_last());
    let own = key_edits(line, ascii_lower_all(line), keys.last(), 0);
    let all = all_key_edits(line, keys);
    assert(all == init + own);
    if which == keys.len() - 1 {
        let k = choose|k: int| 0 <= k < own.len() && (#[trigger] own[k]).0 <= i < own[k].1;
        assert(all[init.len() + k] == own[k]);
    } else {
        lemma_key_part(line, keys.drop_last(), which, i);
        let k = choose|k: int| 0 <= k < init.len() && (#[trigger] init[k]).0 <= i < init[k].1;
        assert(all[k] == init[k]);
    }
}

/// Nothing else is hidden: a hidden character belongs to the value that an
/// occurrence of a key is assigned, or to a token that begins with a prefix.
pub proof fn only_values_and_tokens_are_hidden(
    line: Seq<char>,
    keys: Seq<Seq<char>>,
    prefixes: Seq<Seq<char>>,
    i: int,
)
    requires
        none_empty(keys),
        none_empty(prefixes),
        covered(all_edits(line, keys, prefixes), i),
    ensures
        (exists|w: int, k: int|
            0 <= w < keys.len() && #[trigger] occurs_at(ascii_lower_all(line), keys[w], k) && (
            assigned_value(line, k + keys[w].len()) matches Some(r) && r.0 <= i < r.1)) || (exists|
            w: int,
            p: int,
        |
            0 <= w < prefixes.len() && #[trigger] occurs_at(
                ascii_lower_all(line),
                ascii_lower_all(prefixes[w]),
                p,
            ) && at_token_start(line, p) && p <= i < to_space_or_quote(line, p)),
{
    let a = all_key_edits(line, keys);
    let b = all_prefix_edits(line, prefixes);
    let all = all_edits(line, keys, prefixes);
    let n = choose|n: int| 0 <= n < all.len() && (#[trigger] all[n]).0 <= i < all[n].1;
    if n < a.len() {
        assert(a[n] == all[n]);
        assert(covered(a, i));
        lemma_hidden_by_key(line, keys, i);
    } else {
        assert(b[n - a.len()] == all[n]);
        assert(covered(b, i));
        lemma_hidden_by_prefix(line, prefixes, i);
    }
}

proof fn lemma_hidden_by_key(line: Seq<char>, keys: Seq<Seq<char>>, i: int)
    requires
        none_empty(keys),
        covered(all_key_edits(line, keys), i),
    ensures
        exists|w: int, k: int|
            0 <= w < keys.len() && #[trigger] occurs_at(ascii_lower_all(line), keys[w], k) && (
            assigned_value(line, k + keys[w].len()) matches Some(r) && r.0 <= i < r.1),
    decreases keys.len(),
{
    let lower = ascii_lower_all(line);
    let init = keys.drop_last();
    let a = all_key_edits(line, init);
    let own = key_edits(line, lower, keys.last(), 0);
    let all = all_key_edits(line, keys);
    assert(keys[keys.len() - 1].len() > 0);
    let n = choose|n: int| 0 <= n < all.len() && (#[trigger] all[n]).0 <= i < all[n].1;
    if n < a.len() {
        assert(a[n] == all[n]);
        assert forall|j: int| 0 <= j < init.len() implies (#[trigger] init[j]).len() > 0 by {
            assert(keys[j] == init[j]);
        }
        lemma_hidden_by_key(line, init, i);
        let (w, k) = choose|w: int, k: int|
            0 <= w < init.len() && #[trigger] occurs_at(lower, init[w], k) && (assigned_value(
                line,
                k + init[w].len(),
            ) matches Some(r) && r.0 <= i < r.1);
        assert(keys[w] == init[w]);
        assert(occurs_at(lower, keys[w], k));
    } else {
        assert(own[n - a.len()] == all[n]);
        let k = lemma_hidden_by_one_key(line, keys.last(), 0, n - a.len());
        assert(occurs_at(lower, keys[keys.len() - 1], k));
    }
}

proof fn lemma_hidden_by_one_key(line: Seq<char>, key: Seq<char>, from: int, n: int) -> (k: int)
    requires
        key.len() > 0,
        0 <= from,
        0 <= n < key_edits(line, ascii_lower_all(line), key, from).len(),
    ensures
        occurs_at(ascii_lower_all(line), key, k),
        assigned_value(line, k + key.len()) == Some(
            key_edits(line, ascii_lower_all(line), key, from)[n],
        ),
    decreases line.len() - from,
{
    let lower = ascii_lower_all(line);
    lemma_find_from(lower, key, from);
    let k = find_from(lower, key, from)->0;
    let k_end = k + key.len();
    lemma_scan_bounds(line, k_end);
    let c = past_blanks_and_quotes(line, k_end);
    if c < line.len() && (line[c] == '=' || line[c] == ':') {
        lemma_scan_bounds(line, c + 1);
        let v = past_blanks(line, c + 1);
        lemma_value_end_bounds(line, v);
        let e = value_end(line, v);
        let rest = key_edits(line, lower, key, e);
        if e > v {
            assert(key_edits(line, lower, key, from) == seq![(v, e)] + rest);
            if n == 0 {
                k
            } else {
                lemma_hidden_by_one_key(line, key, e, n - 1)
            }
        } else {
            lemma_hidden_by_one_key(line, key, e, n)
        }
    } else {
        lemma_hidden_by_one_key(line, key, k_end, n)
    }
}

proof fn lemma_hidden_by_prefix(line: Seq<char>, prefixes: Seq<Seq<char>>, i: int)
    requires
        none_empty(prefixes),
        covered(all_prefix_edits(line, prefixes), i),
    ensures
        exists|w: int, p: int|
            0 <= w < prefixes.len() && #[trigger] occurs_at(
                ascii_lower_all(line),
                ascii_lower_all(prefixes[w]),
                p,
            ) && at_token_start(line, p) && p <= i < to_space_or_quote(line, p),
    decreases prefixes.len(),
{
    let lower = ascii_lower_all(line);
    let init = prefixes.drop_last();
    let a = all_prefix_edits(line, init);
    let last = ascii_lower_all(prefixes.last());
    let own = prefix_edits(line, lower, last, 0);
    let all = all_prefix_edits(line, prefixes);
    assert(prefixes[prefixes.len() - 1].len() > 0);
    let n = choose|n: int| 0 <= n < all.len() && (#[trigger] all[n]).0 <= i < all[n].1;
    if n < a.len() {
        assert(a[n] == all[n]);
        assert forall|j: int| 0 <= j < init.len() implies (#[trigger] init[j]).len() > 0 by {
            assert(prefixes[j] == init[j]);
        }
        lemma_hidden_by_prefix(line, init, i);
        let (w, p) = choose|w: int, p: int|
            0 <= w < init.len() && #[trigger] occurs_at(lower, ascii_lower_all(init[w]), p)
                && at_token_start(line, p) && p <= i < to_space_or_quote(line, p);
        assert(prefixes[w] == init[w]);
        assert(occurs_at(lower, ascii_lower_all(prefixes[w]), p));
    } else {
        assert(own[n - a.len()] == all[n]);
        let p = lemma_hidden_by_one_prefix(line, last, 0, n - a.len());
        assert(occurs_at(lower, ascii_lower_all(prefixes[prefixes.len() - 1]), p));
    }
}

proof fn lemma_hidden_by_one_prefix(
    line: Seq<char>,
    prefix: Seq<char>,
    from: int,
    n: int,
) -> (p: int)
    requires
        prefix.len() > 0,
        0 <= from,
        0 <= n < prefix_edits(line, ascii_lower_all(line), prefix, from).len(),
    ensures
        occurs_at(ascii_lower_all(line), prefix, p),
        at_token_start(line, p),
        prefix_edits(line, ascii_lower_all(line), prefix, from)[n] == (
            p,
            to_space_or_quote(line, p),
        ),
    decreases line.len() - from,
{
    let lower = ascii_lower_all(line);
    lemma_find_from(lower, prefix, from);
    let p = find_from(lower, prefix, from)->0;
    let past = p + prefix.len();
    lemma_scan_bounds(line, p);
    let e = to_space_or_quote(line, p);
    if at_token_start(line, p) {
        let next = if e > past { e } else { past };
        let rest = prefix_edits(line, lower, prefix, next);
        if e > p {
            assert(prefix_edits(line, lower, prefix, from) == seq![(p, e)] + rest);
            if n == 0 {
                p
            } else {
                lemma_hidden_by_one_prefix(line, prefix, next, n - 1)
            }
        } else {
            lemma_hidden_by_one_prefix(line, prefix, next, n)
        }
    } else {
        lemma_hidden_by_one_prefix(line, prefix, past, n)
    }
}

/// Where the next white space stands, `to_space` stops.
pub proof fn lemma_space_at(s: Seq<char>, i: int, e: int)
    requires
        0 <= i <= e <= s.len(),
        forall|j: int| i <= j < e ==> !is_space(#[trigger] s[j]),
        e < s.len() ==> is_space(s[e]),
    ensures
        to_space(s, i) == e,
    decreases e - i,
{
    if i < e {
        lemma_space_at(s, i + 1, e);
    }
}

proof fn lemma_space_or_quote_at(s: Seq<char>, i: int, e: int)
    requires
        0 <= i <= e <= s.len(),
        forall|j: int| i <= j < e ==> !is_space(#[trigger] s[j]) && !is_quote(s[j]),
        e < s.len() ==> is_space(s[e]) || is_quote(s[e]),
    ensures
        to_space_or_quote(s, i) == e,
    decreases e - i,
{
    if i < e {
        lemma_space_or_quote_at(s, i + 1, e);
    }
}

proof fn lemma_mask_one(line: Seq<char>, edits: Seq<(int, int)>, a: int, b: int)
    requires
        0 <= a < b <= line.len(),
        edits == seq![(a, b)],
    ensures
        masked_to(line, edits, line.len() as int) == line.take(a) + "***"@ + line.skip(b),
{
    let n = line.len() as int;
    assert(edits[0] == (a, b));
    assert forall|i: int| #[trigger] covered(edits, i) == (a <= i < b) by {
        if a <= i < b {
            assert(edits[0].0 <= i < edits[0].1);
        }
    }
    lemma_mask_plain(line, edits, 0, a);
    lemma_mask_run(line, edits, a, b);
    lemma_mask_plain(line, edits, b, n);
    assert(line.subrange(0, a) == line.take(a));
    assert(line.subrange(b, n) == line.skip(b));
    assert(masked_to(line, edits, 0) == Seq::<char>::empty());
    assert(Seq::<char>::empty() + line.take(a) == line.take(a));
}

proof fn lemma_past_gap(s: Seq<char>, i: int, e: int)
    requires
        0 <= i <= e < s.len(),
        forall|j: int| i <= j < e ==> is_blank_or_tab(#[trigger] s[j]) || is_quote(s[j]),
        !is_blank_or_tab(s[e]),
        !is_quote(s[e]),
    ensures
        past_blanks_and_quotes(s, i) == e,
    decreases e - i,
{
    if i < e {
        lemma_past_gap(s, i + 1, e);
    }
}

proof fn lemma_past_blanks(s: Seq<char>, i: int, e: int)
    requires
        0 <= i <= e < s.len(),
        forall|j: int| i <= j < e ==> is_blank_or_tab(#[trigger] s[j]),
        !is_blank_or_tab(s[e]),
    ensures
        past_blanks(s, i) == e,
    decreases e - i,
{
    if i < e {
        lemma_past_blanks(s, i + 1, e);
    }
}

/// Of a line that assigns a value to a key once, in whatever case, with `=` or
/// `:`, exactly the value is replaced by three stars; what stands before it
/// and behind it stays. Blanks may stand around the sign, and quotation marks
/// before it.
pub proof fn assigned_value_alone_is_replaced(
    line: &str,
    keys: &[&str],
    prefixes: &[&str],
    before: Seq<char>,
    name: Seq<char>,
    gap: Seq<char>,
    sep: char,
    blanks: Seq<char>,
    value: Seq<char>,
    after: Seq<char>,
    r: String,
)
    requires
        call_ensures(redact_line_precise, (line, keys, prefixes), r),
        keys@.len() == 1,
        prefixes@.len() == 0,
        line@ == before + name + gap + seq![sep] + blanks + value + after,
        name.len() > 0,
        ascii_lower_all(name) == keys@[0]@,
        forall|i: int|
            0 <= i < gap.len() ==> #[trigger] gap[i] == ' ' || gap[i] == '\t' || gap[i] == '"'
                || gap[i] == '\'',
        sep == '=' || sep == ':',
        forall|i: int| 0 <= i < blanks.len() ==> #[trigger] blanks[i] == ' ' || blanks[i] == '\t',
        value.len() > 0,
        forall|i: int| 0 <= i < value.len() ==> !is_space(#[trigger] value[i]),
        value[0] != '"' && value[0] != '\'',
        after.len() > 0 ==> is_space(after[0]),
        find_from(ascii_lower_all(line@), keys@[0]@, 0) == Some(before.len() as int),
        find_from(ascii_lower_all(line@), keys@[0]@, line@.len() - after.len()) is None,
    ensures
        r@ == before + name + gap + seq![sep] + blanks + "***"@ + after,
{
    let s = line@;
    let lower = ascii_lower_all(s);
    let all = str_views(keys@);
    let key = keys@[0]@;
    assert(all == seq![key]);
    assert(key.len() == name.len());
    let k_end = before.len() as int + name.len();
    let c = k_end + gap.len();
    let v = c + 1 + blanks.len();
    let e = v + value.len();
    assert(s[c] == sep);
    assert forall|j: int| k_end <= j < c implies is_blank_or_tab(#[trigger] s[j]) || is_quote(
        s[j],
    ) by {
        assert(s[j] == gap[j - k_end]);
    }
    lemma_past_gap(s, k_end, c);
    assert(s[v] == value[0]);
    assert(!is_space(value[0]));
    assert forall|j: int| c + 1 <= j < v implies is_blank_or_tab(#[trigger] s[j]) by {
        assert(s[j] == blanks[j - c - 1]);
    }
    lemma_past_blanks(s, c + 1, v);
    assert forall|j: int| v <= j < e implies !is_space(#[trigger] s[j]) by {
        assert(s[j] == value[j - v]);
    }
    if after.len() > 0 {
        assert(s[e] == after[0]);
    }
    lemma_space_at(s, v, e);
    assert(value_end(s, v) == e);
    assert(e == s.len() - after.len());
    let rest = key_edits(s, lower, key, e);
    assert(rest == Seq::<(int, int)>::empty());
    let own = key_edits(s, lower, key, 0);
    assert(own == seq![(v, e)] + rest);
    assert(all.drop_last() == Seq::<Seq<char>>::empty());
    assert(all.last() == key);
    assert(all_key_edits(s, all.drop_last()) == Seq::<(int, int)>::empty());
    assert(all_key_edits(s, all) == own);
    let none = str_views(prefixes@);
    assert(all_prefix_edits(s, none) == Seq::<(int, int)>::empty());
    let edits = all_edits(s, all, none);
    assert(edits == seq![(v, e)]);
    lemma_mask_one(s, edits, v, e);
    assert(s.take(v) == before + name + gap + seq![sep] + blanks);
    assert(s.skip(e) == after);
}

/// Of a line with one token that begins with a prefix, in whatever case,
/// exactly the token is replaced by three stars.
pub proof fn token_alone_is_replaced(
    line: &str,
    keys: &[&str],
    prefixes: &[&str],
    before: Seq<char>,
    token: Seq<char>,
    after: Seq<char>,
    r: String,
)
    requires
        call_ensures(redact_line_precise, (line, keys, prefixes), r),
        keys@.len() == 0,
        prefixes@.len() == 1,
        prefixes@[0]@.len() > 0,
        line@ == before + token + after,
        before.len() > 0 ==> is_space(before.last()) || is_quote(before.last()),
        after.len() > 0 ==> is_space(after[0]) || is_quote(after[0]),
        forall|i: int| 0 <= i < token.len() ==> !is_space(#[trigger] token[i]) && !is_quote(token[i]),
        token.len() >= prefixes@[0]@.len(),
        find_from(ascii_lower_all(line@), ascii_lower_all(prefixes@[0]@), 0) == Some(
            before.len() as int,
        ),
        find_from(
            ascii_lower_all(line@),
            ascii_lower_all(prefixes@[0]@),
            before.len() as int + token.len(),
        ) is None,
    ensures
        r@ == before + "***"@ + after,
{
    let s = line@;
    let lower = ascii_lower_all(s);
    let all = str_views(prefixes@);
    let prefix = ascii_lower_all(prefixes@[0]@);
    assert(all == seq![prefixes@[0]@]);
    let p = before.len() as int;
    let e = p + token.len();
    if p > 0 {
        assert(s[p - 1] == before.last());
    }
    assert forall|j: int| p <= j < e implies !is_space(#[trigger] s[j]) && !is_quote(s[j]) by {
        assert(s[j] == token[j - p]);
    }
    if after.len() > 0 {
        assert(s[e] == after[0]);
    }
    lemma_space_or_quote_at(s, p, e);
    let rest = prefix_edits(s, lower, prefix, e);
    assert(rest == Seq::<(int, int)>::empty());
    let own = prefix_edits(s, lower, prefix, 0);
    assert(own == seq![(p, e)] + rest);
    assert(all.drop_last() == Seq::<Seq<char>>::empty());
    assert(all.last() == prefixes@[0]@);
    assert(all_prefix_edits(s, all.drop_last()) == Seq::<(int, int)>::empty());
    assert(all_prefix_edits(s, all) == own);
    let none = str_views(keys@);
    assert(all_key_edits(s, none) == Seq::<(int, int)>::empty());
    let edits = all_edits(s, none, all);
    assert(edits == seq![(p, e)]);
    lemma_mask_one(s, edits, p, e);
    assert(s.take(p) == before);
    assert(s.skip(e) == after);
}

/// In the output of commands these names and these beginnings are looked for,
/// in each line.
pub proof fn secrets_that_are_looked_for(
    text: &str,
    keys: &[&str],
    prefixes: &[&str],
    line: String,
    r: String,
)
    requires
        call_ensures(redact_secrets, (text,), r),
        !text@.contains('\n'),
        keys@.len() == 7,
        keys@[0]@ == "password"@ && keys@[1]@ == "secret"@ && keys@[2]@ == "token"@ && keys@[3]@
            == "api_key"@ && keys@[4]@ == "apikey"@ && keys@[5]@ == "private_key"@ && keys@[6]@
            == "access_key"@,
        prefixes@.len() == 5,
        prefixes@[0]@ == "sk-"@ && prefixes@[1]@ == "ghp_"@ && prefixes@[2]@ == "github_pat_"@
            && prefixes@[3]@ == "AKIA"@ && prefixes@[4]@ == "xoxb-"@,
        call_ensures(redact_line_precise, (text, keys, prefixes), line),
    ensures
        text@.len() > 0 ==> r@ == line@,
        text@.len() == 0 ==> r@.len() == 0,
{
    assert(str_views(keys@) == sensitive_keys());
    assert(str_views(prefixes@) == key_prefixes());
    lemma_index_from(text@, '\n', 0);
    if text@.len() > 0 {
        let ls = lines(text@);
        assert(ls == seq![text@]);
        assert(text@.last() != '\n') by {
            assert(text@[text@.len() - 1] == text@.last());
        }
        assert(ls.drop_last() == Seq::<Seq<char>>::empty());
        assert(redacted_lines(ls.drop_last()) == Seq::<char>::empty());
        let hidden = redacted_line(text@, sensitive_keys(), key_prefixes());
        assert(redacted_lines(ls) == (Seq::<char>::empty() + hidden).push('\n'));
        assert((Seq::<char>::empty() + hidden).push('\n').drop_last() == hidden);
    }
}

/// A value in quotation marks is replaced whole, with its marks and with the
/// white space in it.
pub proof fn quoted_value_is_replaced_whole(
    line: &str,
    keys: &[&str],
    prefixes: &[&str],
    before: Seq<char>,
    name: Seq<char>,
    sep: char,
    mark: char,
    inner: Seq<char>,
    after: Seq<char>,
    r: String,
)
    requires
        call_ensures(redact_line_precise, (line, keys, prefixes), r),
        keys@.len() == 1,
        prefixes@.len() == 0,
        line@ == before + name + seq![sep, mark] + inner + seq![mark] + after,
        name.len() > 0,
        ascii_lower_all(name) == keys@[0]@,
        sep == '=' || sep == ':',
        is_quote(mark),
        !inner.contains(mark),
        find_from(ascii_lower_all(line@), keys@[0]@, 0) == Some(before.len() as int),
        find_from(ascii_lower_all(line@), keys@[0]@, line@.len() - after.len()) is None,
    ensures
        r@ == before + name + seq![sep] + "***"@ + after,
{
    let s = line@;
    let lower = ascii_lower_all(s);
    let all = str_views(keys@);
    let key = keys@[0]@;
    assert(all == seq![key]);
    assert(key.len() == name.len());
    let k_end = before.len() as int + name.len();
    let v = k_end + 1;
    let close = v + 1 + inner.len();
    let e = close + 1;
    assert(s[k_end] == sep);
    assert(past_blanks_and_quotes(s, k_end) == k_end);
    assert(s[v] == mark);
    assert(past_blanks(s, v) == v);
    assert(s[close] == mark);
    lemma_index_from(s, mark, v + 1);
    let j = index_from(s, mark, v + 1)->0;
    if j < close {
        assert(s[j] == inner[j - v - 1]);
        assert(inner.contains(mark));
    }
    assert(value_end(s, v) == e);
    let rest = key_edits(s, lower, key, e);
    assert(rest == Seq::<(int, int)>::empty());
    let own = key_edits(s, lower, key, 0);
    assert(own == seq![(v, e)] + rest);
    assert(all.drop_last() == Seq::<Seq<char>>::empty());
    assert(all.last() == key);
    assert(all_key_edits(s, all.drop_last()) == Seq::<(int, int)>::empty());
    assert(all_key_edits(s, all) == own);
    let none = str_views(prefixes@);
    assert(all_prefix_edits(s, none) == Seq::<(int, int)>::empty());
    let edits = all_edits(s, all, none);
    assert(edits == seq![(v, e)]);
    lemma_mask_one(s, edits, v, e);
    assert(s.take(v) == before + name + seq![sep]);
    assert(s.skip(e) == after);
}

} // verus!
