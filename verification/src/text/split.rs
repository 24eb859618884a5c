//! Splitting text into lines and pieces, and joining pieces.

use vstd::prelude::*;
use vstd::string::*;
use crate::text::chars::sub_chars;
use crate::text::search::{index_from, index_of, lemma_index_from};

verus! {

/// The texts of a list of strings.
pub open spec fn views(v: Seq<String>) -> Seq<Seq<char>> {
    Seq::new(v.len(), |i: int| v[i]@)
}

/// The text in an optional string.
pub open spec fn opt_view(o: Option<String>) -> Option<Seq<char>> {
    match o {
        Some(s) => Some(s@),
        None => None,
    }
}

/// The texts of a list of character vectors.
pub open spec fn char_views(v: Seq<Vec<char>>) -> Seq<Seq<char>> {
    Seq::new(v.len(), |i: int| v[i]@)
}

/// `s` without one carriage return at its end.
pub open spec fn strip_return(s: Seq<char>) -> Seq<char> {
    if s.len() > 0 && s.last() == '\r' {
        s.drop_last()
    } else {
        s
    }
}

/// The lines of a text: each ends at a line feed, with a carriage return
/// before it not counted; what follows the last line feed is a line of its
/// own unless it is empty.
pub open spec fn lines(s: Seq<char>) -> Seq<Seq<char>>
    decreases s.len(),
{
    if s.len() == 0 {
        Seq::empty()
    } else {
        match index_from(s, '\n', 0) {
            Some(i) => if 0 <= i < s.len() {
                seq![strip_return(s.take(i))] + lines(s.skip(i + 1))
            } else {
                Seq::empty()
            },
            None => seq![s],
        }
    }
}

/// A text can be parted behind any line feed: its lines are those of the first
/// part followed by those of the second.
pub proof fn lines_part_at_line_feeds(a: Seq<char>, b: Seq<char>)
    ensures
        lines(a.push('\n') + b) == lines(a.push('\n')) + lines(b),
    decreases a.len(),
{
    let head = a.push('\n');
    let whole = head + b;
    lemma_index_from(head, '\n', 0);
    lemma_index_from(whole, '\n', 0);
    assert(head[a.len() as int] == '\n');
    assert(whole[a.len() as int] == '\n');
    let i = index_from(head, '\n', 0)->0;
    let k = index_from(whole, '\n', 0)->0;
    assert(whole[i] == head[i]);
    assert(head[k] == whole[k]);
    assert(i == k);
    assert(whole.take(i) == head.take(i));
    let first = seq![strip_return(head.take(i))];
    if i < a.len() {
        let rest = a.skip(i + 1);
        lines_part_at_line_feeds(rest, b);
        assert(head.skip(i + 1) == rest.push('\n'));
        assert(whole.skip(i + 1) == rest.push('\n') + b);
    } else {
        assert(head.skip(i + 1) == Seq::<char>::empty());
        assert(whole.skip(i + 1) == b);
    }
    assert(lines(whole) == first + lines(whole.skip(i + 1)));
    assert(lines(head) == first + lines(head.skip(i + 1)));
}

/// The pieces of `s` between the occurrences of `c`: one more than there are
/// occurrences.
pub open spec fn pieces(s: Seq<char>, c: char) -> Seq<Seq<char>>
    decreases s.len(),
{
    match index_from(s, c, 0) {
        Some(i) => if 0 <= i < s.len() {
            seq![s.take(i)] + pieces(s.skip(i + 1), c)
        } else {
            Seq::empty()
        },
        None => seq![s],
    }
}

/// The texts in order with `sep` between each two.
pub open spec fn joined(parts: Seq<Seq<char>>, sep: Seq<char>) -> Seq<char>
    decreases parts.len(),
{
    if parts.len() == 0 {
        Seq::empty()
    } else if parts.len() == 1 {
        parts[0]
    } else {
        joined(parts.drop_last(), sep) + sep + parts.last()
    }
}

/// A text can be put before the rest of the texts.
proof fn lemma_joined_first(first: Seq<char>, rest: Seq<Seq<char>>, sep: Seq<char>)
    requires
        rest.len() > 0,
    ensures
        joined(seq![first] + rest, sep) == first + sep + joined(rest, sep),
    decreases rest.len(),
{
    let all = seq![first] + rest;
    assert(all.last() == rest.last());
    if rest.len() == 1 {
        assert(all.drop_last() == seq![first]);
        assert(joined(seq![first], sep) == first);
        assert(joined(all, sep) == joined(all.drop_last(), sep) + sep + all.last());
    } else {
        assert(all.drop_last() == seq![first] + rest.drop_last());
        lemma_joined_first(first, rest.drop_last(), sep);
        assert(joined(all, sep) == first + sep + joined(rest, sep));
    }
}

/// The pieces of a text, put together again with the character between them,
/// are the text.
pub proof fn joined_pieces_are_the_text(s: Seq<char>, c: char)
    ensures
        pieces(s, c).len() > 0,
        joined(pieces(s, c), seq![c]) == s,
    decreases s.len(),
{
    lemma_index_from(s, c, 0);
    match index_from(s, c, 0) {
        Some(i) => {
            let rest = s.skip(i + 1);
            joined_pieces_are_the_text(rest, c);
            lemma_joined_first(s.take(i), pieces(rest, c), seq![c]);
            assert(s.take(i) + seq![c] + rest == s);
        },
        None => {},
    }
}

/// A search in the rest of a text is the search from there, shifted.
pub proof fn lemma_index_skip(s: Seq<char>, c: char, pos: int)
    requires
        0 <= pos <= s.len(),
    ensures
        match index_from(s, c, pos) {
            Some(i) => index_from(s.skip(pos), c, 0) == Some(i - pos),
            None => index_from(s.skip(pos), c, 0) is None,
        },
{
    lemma_index_from(s, c, pos);
    lemma_index_from(s.skip(pos), c, 0);
    let t = s.skip(pos);
    match (index_from(s, c, pos), index_from(t, c, 0)) {
        (Some(i), Some(j)) => {
            assert(t[i - pos] == c);
            assert(s[pos + j] == c);
            if j < i - pos {
                assert(s[pos + j] != c);
            } else if j > i - pos {
                assert(t[i - pos] != c);
            }
        },
        (Some(i), None) => {
            assert(t[i - pos] == c);
        },
        (None, Some(j)) => {
            assert(s[pos + j] == c);
        },
        (None, None) => {},
    }
}

/// Splits a text into its lines.
pub fn split_lines(s: &[char]) -> (r: Vec<Vec<char>>)
    ensures
        char_views(r@) == lines(s@),
{
    let mut out: Vec<Vec<char>> = Vec::new();
    let mut pos: usize = 0;
    assert(s@.skip(0) == s@);
    while pos < s.len()
        invariant
            pos <= s@.len(),
            char_views(out@) + lines(s@.skip(pos as int)) == lines(s@),
        decreases s@.len() - pos,
    {
        let ghost rest = s@.skip(pos as int);
        let ghost out0 = char_views(out@);
        proof {
            lemma_index_skip(s@, '\n', pos as int);
            lemma_index_from(s@, '\n', pos as int);
        }
        match index_of(s, '\n', pos) {
            Some(i) => {
                let end: usize = if i > pos && s[i - 1] == '\r' {
                    i - 1
                } else {
                    i
                };
                let line = sub_chars(s, pos, end);
                proof {
                    assert(rest.take(i - pos) == s@.subrange(pos as int, i as int));
                    assert(line@ == strip_return(rest.take(i - pos)));
                    assert(rest.skip(i - pos + 1) == s@.skip(i + 1));
                    assert(lines(rest) == seq![line@] + lines(s@.skip(i + 1)));
                }
                out.push(line);
                assert(char_views(out@) == out0.push(line@));
                assert(char_views(out@) + lines(s@.skip(i + 1)) == out0 + (seq![line@] + lines(
                    s@.skip(i + 1),
                )));
                pos = i + 1;
            },
            None => {
                let line = sub_chars(s, pos, s.len());
                assert(line@ == rest);
                assert(lines(rest) == seq![rest]);
                out.push(line);
                assert(char_views(out@) == out0.push(rest));
                assert(char_views(out@) == out0 + seq![rest]);
                return out;
            },
        }
    }
    assert(lines(s@.skip(pos as int)) == Seq::<Seq<char>>::empty());
    assert(char_views(out@) == lines(s@));
    out
}

/// Splits a text at every occurrence of `c`.
pub fn split_at_char(s: &[char], c: char) -> (r: Vec<Vec<char>>)
    ensures
        char_views(r@) == pieces(s@, c),
{
    let mut out: Vec<Vec<char>> = Vec::new();
    let len: usize = s.len();
    let mut pos: usize = 0;
    assert(s@.skip(0) == s@);
    loop
        invariant
            len == s@.len(),
            pos <= s@.len(),
            char_views(out@) + pieces(s@.skip(pos as int), c) == pieces(s@, c),
        decreases s@.len() - pos,
    {
        let ghost rest = s@.skip(pos as int);
        let ghost out0 = char_views(out@);
        proof {
            lemma_index_skip(s@, c, pos as int);
            lemma_index_from(s@, c, pos as int);
        }
        match index_of(s, c, pos) {
            Some(i) => {
                let piece = sub_chars(s, pos, i);
                proof {
                    assert(rest.take(i - pos) == piece@);
                    assert(rest.skip(i - pos + 1) == s@.skip(i + 1));
                    assert(pieces(rest, c) == seq![piece@] + pieces(s@.skip(i + 1), c));
                }
                out.push(piece);
                assert(char_views(out@) == out0.push(piece@));
                assert(char_views(out@) + pieces(s@.skip(i + 1), c) == out0 + (seq![piece@]
                    + pieces(s@.skip(i + 1), c)));
                pos = i + 1;
            },
            None => {
                let piece = sub_chars(s, pos, s.len());
                assert(piece@ == rest);
                out.push(piece);
                assert(char_views(out@) == out0.push(rest));
                assert(char_views(out@) == out0 + seq![rest]);
                return out;
            },
        }
    }
}

/// Joins texts with `sep` between each two.
pub fn join(parts: &Vec<String>, sep: &str) -> (r: String)
    ensures
        r@ == joined(views(parts@), sep@),
{
    let mut out = String::new();
    let mut i: usize = 0;
    assert(views(parts@).take(0) == Seq::<Seq<char>>::empty());
    while i < parts.len()
        invariant
            i <= parts@.len(),
            out@ == joined(views(parts@).take(i as int), sep@),
        decreases parts@.len() - i,
    {
        if i > 0 {
            out.append(sep);
        }
        out.append(parts[i].as_str());
        proof {
            let now = views(parts@).take(i + 1);
            assert(now.drop_last() == views(parts@).take(i as int));
            assert(now.last() == parts@[i as int]@);
            if i == 0 {
                assert(out@ == now[0]);
            }
        }
        i = i + 1;
    }
    assert(views(parts@).take(parts@.len() as int) == views(parts@));
    out
}

/// No piece holds the character at which the text was split.
proof fn lemma_pieces_hold_none(s: Seq<char>, c: char)
    ensures
        pieces(s, c).len() > 0,
        forall|i: int, j: int|
            0 <= i < pieces(s, c).len() && 0 <= j < pieces(s, c)[i].len() ==> #[trigger] pieces(
                s,
                c,
            )[i][j] != c,
    decreases s.len(),
{
    lemma_index_from(s, c, 0);
    if let Some(k) = index_from(s, c, 0) {
        let rest = pieces(s.skip(k + 1), c);
        lemma_pieces_hold_none(s.skip(k + 1), c);
        assert forall|i: int, j: int|
            0 <= i < pieces(s, c).len() && 0 <= j < pieces(s, c)[i].len() implies #[trigger] pieces(
            s,
            c,
        )[i][j] != c by {
            if i > 0 {
                assert(pieces(s, c)[i] == rest[i - 1]);
                assert(rest[i - 1][j] != c);
            } else {
                assert(pieces(s, c)[0] == s.take(k));
            }
        }
    }
}

/// Splitting a text at a character parts it at every place where that stands
/// and nowhere else: no piece holds it, and with it between them the pieces
/// are the text again.
pub proof fn split_parts_at_every_place(s: &[char], c: char, r: Vec<Vec<char>>)
    requires
        call_ensures(split_at_char, (s, c), r),
    ensures
        r@.len() > 0,
        joined(char_views(r@), seq![c]) == s@,
        forall|i: int, j: int|
            0 <= i < r@.len() && 0 <= j < r@[i]@.len() ==> #[trigger] r@[i]@[j] != c,
{
    joined_pieces_are_the_text(s@, c);
    lemma_pieces_hold_none(s@, c);
    assert(char_views(r@).len() == r@.len());
    assert forall|i: int, j: int| 0 <= i < r@.len() && 0 <= j < r@[i]@.len() implies #[trigger]
        r@[i]@[j] != c by {
        assert(char_views(r@)[i] == r@[i]@);
        assert(pieces(s@, c)[i][j] != c);
    }
}

/// Joining puts the texts one after the other with the separator between
/// them: one text more is the separator and that text more.
pub proof fn joining_adds_at_the_end(
    parts: &Vec<String>,
    fewer: &Vec<String>,
    sep: &str,
    r: String,
    s: String,
)
    requires
        parts@.len() > 0,
        fewer@ == parts@.drop_last(),
        call_ensures(join, (parts, sep), r),
        call_ensures(join, (fewer, sep), s),
    ensures
        parts@.len() == 1 ==> r@ == parts@[0]@ && s@.len() == 0,
        parts@.len() > 1 ==> r@ == s@ + sep@ + parts@.last()@,
{
    assert(views(fewer@) == views(parts@).drop_last());
    assert(views(parts@).last() == parts@.last()@);
}

/// The lines of a text are its pieces between line feeds: all that a line feed
/// ends, without a carriage return right before it, and what follows the last
/// line feed, if that is not empty.
proof fn lemma_lines_are_pieces(s: Seq<char>)
    ensures
        ({
            let p = pieces(s, '\n');
            let n = p.len() - 1;
            &&& n >= 0
            &&& lines(s).len() == if p[n].len() == 0 {
                n
            } else {
                n + 1
            }
            &&& forall|i: int| 0 <= i < n ==> #[trigger] lines(s)[i] == strip_return(p[i])
            &&& p[n].len() > 0 ==> lines(s)[n] == p[n]
        }),
    decreases s.len(),
{
    lemma_index_from(s, '\n', 0);
    let p = pieces(s, '\n');
    match index_from(s, '\n', 0) {
        Some(k) => {
            let rest = s.skip(k + 1);
            let q = pieces(rest, '\n');
            lemma_lines_are_pieces(rest);
            assert(p == seq![s.take(k)] + q);
            let n = p.len() - 1;
            assert forall|i: int| 0 <= i < n implies #[trigger] lines(s)[i] == strip_return(
                p[i],
            ) by {
                if i > 0 {
                    assert(lines(s)[i] == lines(rest)[i - 1]);
                    assert(p[i] == q[i - 1]);
                }
            }
            assert(p[n] == q[n - 1]);
        },
        None => {},
    }
}

/// The lines of a text are its pieces between line feeds: of those that a line
/// feed ends one carriage return at the end is left out, and what follows the
/// last line feed is a line only if it is not empty.
pub proof fn lines_are_what_line_feeds_end(
    s: &[char],
    r: Vec<Vec<char>>,
    between: Vec<Vec<char>>,
    i: int,
)
    requires
        call_ensures(split_lines, (s,), r),
        call_ensures(split_at_char, (s, '\n'), between),
    ensures
        between@.len() > 0,
        r@.len() == between@.len() || (r@.len() == between@.len() - 1 && between@.last()@.len()
            == 0),
        between@.last()@.len() == 0 ==> r@.len() == between@.len() - 1,
        0 <= i < between@.len() - 1 ==> {
            let raw = between@[i]@;
            &&& raw.len() > 0 && raw.last() == '\r' ==> r@[i]@ == raw.drop_last()
            &&& raw.len() == 0 || raw.last() != '\r' ==> r@[i]@ == raw
        },
        i == between@.len() - 1 && i < r@.len() ==> r@[i]@ == between@[i]@,
{
    lemma_lines_are_pieces(s@);
    assert(char_views(r@).len() == r@.len());
    assert(char_views(between@).len() == between@.len());
    let n = between@.len() - 1;
    assert(char_views(between@)[n] == between@[n]@);
    if 0 <= i < n {
        assert(char_views(between@)[i] == between@[i]@);
        assert(char_views(r@)[i] == r@[i]@);
        assert(lines(s@)[i] == strip_return(pieces(s@, '\n')[i]));
    }
    if i == n && i < r@.len() {
        assert(char_views(r@)[i] == r@[i]@);
    }
}

} // verus!
