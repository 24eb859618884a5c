//! Helpers that several tools share.

use vstd::prelude::*;
use vstd::string::*;
use vstd::utf8::*;
use crate::text::chars::{
    byte_len, from_chars, lemma_byte_len_at_least, lemma_byte_len_concat, lemma_byte_len_is_encoding,
    lemma_byte_len_take, push_text, str_byte_len,
    sub_chars, to_chars, width_of,
};

verus! {

/// The number of characters in the longest beginning of `s` that takes at
/// most `budget` bytes.
pub open spec fn fitting(s: Seq<char>, budget: int) -> int
    decreases s.len(),
{
    if s.len() == 0 || byte_len(s) <= budget {
        s.len() as int
    } else {
        fitting(s.drop_last(), budget)
    }
}

/// What stands at the end of output that was cut.
pub open spec fn cut_mark() -> Seq<char> {
    "\n...[output truncated]"@
}

/// `a - b`, or 0 where that is negative.
pub open spec fn less(a: int, b: int) -> int {
    if a > b {
        a - b
    } else {
        0
    }
}

/// The text, cut so that it fits in `max` bytes with a mark at its end, if it
/// is longer than that.
pub open spec fn truncated(text: Seq<char>, max: int) -> Seq<char> {
    if byte_len(text) <= max {
        text
    } else {
        text.take(fitting(text, less(max, byte_len(cut_mark()) as int))) + cut_mark()
    }
}

/// `fitting` is the last index up to which the text fits.
pub proof fn lemma_fitting(s: Seq<char>, budget: int)
    requires
        0 <= budget,
    ensures
        0 <= fitting(s, budget) <= s.len(),
        byte_len(s.take(fitting(s, budget))) <= budget,
        forall|k: int|
            fitting(s, budget) < k <= s.len() ==> byte_len(#[trigger] s.take(k)) > budget,
    decreases s.len(),
{
    assert(s.take(s.len() as int) == s);
    if s.len() == 0 || byte_len(s) <= budget {
    } else {
        let t = s.drop_last();
        lemma_fitting(t, budget);
        let f = fitting(s, budget);
        assert(t.take(f) == s.take(f));
        assert forall|k: int| f < k <= s.len() implies byte_len(#[trigger] s.take(k)) > budget by {
            if k < s.len() {
                assert(t.take(k) == s.take(k));
            }
        }
    }
}

/// Cuts `text` to at most `max_bytes` bytes, at a character boundary, and
/// marks the cut. The flag says whether it was cut.
pub fn truncate_output(text: String, max_bytes: usize) -> (r: (String, bool))
    ensures
        r.0@ == truncated(text@, max_bytes as int),
        r.1 == (byte_len(text@) > max_bytes),
{
    let total: usize = str_byte_len(text.as_str());
    if total <= max_bytes {
        return (text, false);
    }
    let indicator = "\n...[output truncated]";
    let mark: usize = str_byte_len(indicator);
    let budget: usize = if max_bytes > mark {
        max_bytes - mark
    } else {
        0
    };
    let chars = to_chars(text.as_str());
    let mut used: usize = 0;
    let mut end: usize = 0;
    proof {
        assert(chars@.take(0) == Seq::<char>::empty());
    }
    while end < chars.len() && width_of(chars[end]) <= budget - used
        invariant
            end <= chars@.len(),
            used == byte_len(chars@.take(end as int)),
            used <= budget,
        decreases chars@.len() - end,
    {
        assert(chars@.take(end + 1).drop_last() == chars@.take(end as int));
        used = used + width_of(chars[end]);
        end = end + 1;
    }
    proof {
        lemma_fitting(chars@, budget as int);
        let f = fitting(chars@, budget as int);
        if end < chars@.len() {
            assert(chars@.take(end + 1).drop_last() == chars@.take(end as int));
            assert(byte_len(chars@.take(end + 1)) > budget);
            if f > end {
                assert(chars@.take(f).take(end + 1) == chars@.take(end + 1));
                lemma_byte_len_take(chars@.take(f), end + 1);
            }
        }
    }
    let mut out = sub_chars(chars.as_slice(), 0, end);
    assert(out@ == chars@.take(end as int));
    push_text(&mut out, indicator);
    (from_chars(out.as_slice()), true)
}

/// Output never takes more bytes than it may, provided that the mark itself
/// fits.
pub proof fn truncated_output_fits(text: Seq<char>, max: int)
    requires
        max >= byte_len(cut_mark()),
    ensures
        byte_len(truncated(text, max)) <= max,
{
    let budget = less(max, byte_len(cut_mark()) as int);
    lemma_fitting(text, budget);
    lemma_byte_len_concat(text.take(fitting(text, budget)), cut_mark());
}

/// Cutting what has been cut changes nothing more.
pub proof fn truncating_again_changes_nothing(text: Seq<char>, max: int)
    requires
        max >= byte_len(cut_mark()),
    ensures
        truncated(truncated(text, max), max) == truncated(text, max),
{
    truncated_output_fits(text, max);
}

/// Output that fits is kept as it is. Of output that does not, the longest
/// beginning is kept that leaves room for the mark, and the mark stands behind
/// it.
pub proof fn output_keeps_its_longest_beginning(text: String, max_bytes: usize, r: (String, bool))
    requires
        call_ensures(truncate_output, (text, max_bytes), r),
    ensures
        r.1 == (encode_utf8(text@).len() > max_bytes),
        !r.1 ==> r.0@ == text@,
        r.1 ==> {
            let mark = "\n...[output truncated]"@;
            let k = r.0@.len() - mark.len();
            &&& 0 <= k < text@.len()
            &&& r.0@.take(k) == text@.take(k)
            &&& r.0@.skip(k) == mark
            &&& k > 0 ==> encode_utf8(text@.take(k)).len() + encode_utf8(mark).len() <= max_bytes
            &&& encode_utf8(text@.take(k + 1)).len() + encode_utf8(mark).len() > max_bytes
        },
{
    let t = text@;
    let mark = cut_mark();
    lemma_byte_len_is_encoding(t);
    lemma_byte_len_is_encoding(mark);
    if r.1 {
        let budget = less(max_bytes as int, byte_len(mark) as int);
        lemma_fitting(t, budget);
        let f = fitting(t, budget);
        assert(t.take(t.len() as int) == t);
        assert(r.0@.len() - mark.len() == f);
        assert(r.0@.take(f) == t.take(f));
        assert(r.0@.skip(f) == mark);
        lemma_byte_len_is_encoding(t.take(f));
        if f < t.len() {
            lemma_byte_len_is_encoding(t.take(f + 1));
            assert(byte_len(t.take(f + 1)) > budget);
        }
        if f > 0 {
            lemma_byte_len_at_least(t.take(f));
        }
    }
}

} // verus!
