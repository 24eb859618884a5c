//! The input line: text with a cursor, and the lines entered before.

use vstd::prelude::*;
use vstd::string::*;
use crate::text::chars::{
    byte_len, from_chars, is_space, lemma_byte_len_at_least, lemma_byte_len_concat, lemma_byte_len_take,
    push_all, str_byte_len, sub_chars, to_chars, width_of,
};
use crate::text::search::{blank, is_blank};
use crate::text::split::views;
use crate::util::{fitting, lemma_fitting};

verus! {

/// The input line. The cursor counts bytes and stands between two characters.
#[derive(Debug)]
pub struct InputState {
    pub buffer: String,
    pub cursor: usize,
    /// Lines entered before, the oldest first.
    pub history: Vec<String>,
    /// The line of the history that is shown.
    pub history_idx: Option<usize>,
}

/// The input line with its texts as sequences; the cursor counts characters.
#[verifier::ext_equal]
pub struct InputView {
    pub text: Seq<char>,
    pub at: int,
    pub history: Seq<Seq<char>>,
    pub shown: Option<usize>,
}

impl View for InputState {
    type V = InputView;

    open spec fn view(&self) -> InputView {
        InputView {
            text: self.buffer@,
            at: fitting(self.buffer@, self.cursor as int),
            history: views(self.history@),
            shown: self.history_idx,
        }
    }
}

/// The bytes before character `at`.
pub open spec fn offset_of(text: Seq<char>, at: int) -> nat {
    byte_len(text.take(at))
}

/// A cursor that stands before character `at` counts that many characters.
pub proof fn lemma_cursor_counts(text: Seq<char>, at: int)
    requires
        0 <= at <= text.len(),
    ensures
        fitting(text, offset_of(text, at) as int) == at,
{
    let b = offset_of(text, at) as int;
    lemma_fitting(text, b);
    let f = fitting(text, b);
    if f < at {
        assert(byte_len(text.take(at)) > b);
    } else if f > at {
        let longer = text.take(f);
        assert(longer.take(at) + longer.skip(at) == longer);
        assert(longer.take(at) == text.take(at));
        lemma_byte_len_concat(longer.take(at), longer.skip(at));
        lemma_byte_len_at_least(longer.skip(at));
    }
}

/// The text with a character put in at the cursor, which then stands behind
/// it.
pub open spec fn with_char(v: InputView, c: char) -> InputView {
    InputView { text: v.text.insert(v.at, c), at: v.at + 1, ..v }
}

/// The text without the character before the cursor.
pub open spec fn without_previous(v: InputView) -> InputView {
    if v.at > 0 {
        InputView { text: v.text.remove(v.at - 1), at: v.at - 1, ..v }
    } else {
        v
    }
}

/// The cursor one character to the left.
pub open spec fn moved_left(v: InputView) -> InputView {
    InputView {
        at: if v.at > 0 {
            v.at - 1
        } else {
            v.at
        },
        ..v
    }
}

/// The cursor one character to the right.
pub open spec fn moved_right(v: InputView) -> InputView {
    InputView {
        at: if v.at < v.text.len() {
            v.at + 1
        } else {
            v.at
        },
        ..v
    }
}

/// The text without the character at the cursor.
pub open spec fn without_next(v: InputView) -> InputView {
    if v.at < v.text.len() {
        InputView { text: v.text.remove(v.at), ..v }
    } else {
        v
    }
}

/// A line of the history with the cursor at its end.
pub open spec fn showing(v: InputView, idx: usize) -> InputView {
    InputView {
        text: v.history[idx as int],
        at: v.history[idx as int].len() as int,
        history: v.history,
        shown: Some(idx),
    }
}

/// One line back in the history; at the oldest line nothing changes.
pub open spec fn older(v: InputView) -> InputView {
    match v.shown {
        None => if v.history.len() == 0 {
            v
        } else {
            showing(v, (v.history.len() - 1) as usize)
        },
        Some(i) => if i == 0 || v.history.len() == 0 {
            v
        } else {
            showing(v, (i - 1) as usize)
        },
    }
}

/// One line on in the history; behind the newest line comes an empty one.
pub open spec fn newer(v: InputView) -> InputView {
    match v.shown {
        None => v,
        Some(i) => if i + 1 >= v.history.len() {
            InputView { text: Seq::empty(), at: 0, history: v.history, shown: None }
        } else {
            showing(v, (i + 1) as usize)
        },
    }
}

/// The input after its text was entered. The text joins the history unless
/// the newest line there is the same.
pub open spec fn entered(v: InputView) -> InputView {
    InputView {
        text: Seq::empty(),
        at: 0,
        history: if v.history.len() > 0 && v.history.last() == v.text {
            v.history
        } else {
            v.history.push(v.text)
        },
        shown: None,
    }
}

impl InputState {
    /// The cursor stands between two characters, and the line that is shown
    /// exists.
    pub open spec fn wf(&self) -> bool {
        &&& self.cursor == offset_of(self.buffer@, self@.at)
        &&& 0 <= self@.at <= self.buffer@.len()
        &&& self.history_idx is Some ==> self.history_idx->0 < self.history@.len()
    }

    /// The index of the character at the cursor.
    fn char_index(&self) -> (r: usize)
        requires
            self.wf(),
        ensures
            r == self@.at,
    {
        let chars = to_chars(self.buffer.as_str());
        let mut i: usize = 0;
        let mut seen: usize = 0;
        assert(chars@.take(0) == Seq::<char>::empty());
        while seen < self.cursor
            invariant
                self.wf(),
                chars@ == self.buffer@,
                i <= self@.at,
                seen == offset_of(chars@, i as int),
                seen <= self.cursor,
            decreases self@.at - i,
        {
            proof {
                if i == self@.at {
                    assert(false);
                }
                assert(chars@.take(i + 1).drop_last() == chars@.take(i as int));
                lemma_byte_len_take(chars@.take(self@.at), i + 1);
                assert(chars@.take(self@.at).take(i + 1) == chars@.take(i + 1));
            }
            seen = seen + width_of(chars[i]);
            i = i + 1;
        }
        proof {
            lemma_cursor_counts(chars@, i as int);
        }
        i
    }

    /// Sets the text, with the cursor before character `at`.
    fn place(&mut self, text: &[char], at: usize)
        requires
            at <= text@.len(),
            old(self).history_idx is Some ==> old(self).history_idx->0 < old(self).history@.len(),
        ensures
            final(self).wf(),
            final(self)@ == (InputView {
                text: text@,
                at: at as int,
                history: old(self)@.history,
                shown: old(self)@.shown,
            }),
    {
        let head = sub_chars(text, 0, at);
        assert(head@ == text@.take(at as int));
        let before = from_chars(head.as_slice());
        self.buffer = from_chars(text);
        self.cursor = str_byte_len(before.as_str());
        proof {
            lemma_cursor_counts(text@, at as int);
        }
    }

    /// Puts a character in at the cursor.
    pub fn insert_char(&mut self, c: char)
        requires
            old(self).wf(),
        ensures
            final(self).wf(),
            final(self)@ == with_char(old(self)@, c),
    {
        let at: usize = self.char_index();
        let chars = to_chars(self.buffer.as_str());
        let n: usize = chars.len();
        let mut text = sub_chars(chars.as_slice(), 0, at);
        text.push(c);
        let tail = sub_chars(chars.as_slice(), at, n);
        push_all(&mut text, tail.as_slice());
        assert(text@ == self.buffer@.insert(at as int, c));
        let m: usize = text.len();
        self.place(text.as_slice(), at + 1);
    }

    /// Deletes the character before the cursor.
    pub fn backspace(&mut self)
        requires
            old(self).wf(),
        ensures
            final(self).wf(),
            final(self)@ == without_previous(old(self)@),
    {
        let at: usize = self.char_index();
        if at > 0 {
            let chars = to_chars(self.buffer.as_str());
            let n: usize = chars.len();
            let mut text = sub_chars(chars.as_slice(), 0, at - 1);
            let tail = sub_chars(chars.as_slice(), at, n);
            push_all(&mut text, tail.as_slice());
            assert(text@ == self.buffer@.remove(at - 1));
            self.place(text.as_slice(), at - 1);
        }
    }

    /// Deletes the character at the cursor.
    pub fn delete(&mut self)
        requires
            old(self).wf(),
        ensures
            final(self).wf(),
            final(self)@ == without_next(old(self)@),
    {
        let at: usize = self.char_index();
        let chars = to_chars(self.buffer.as_str());
        if at < chars.len() {
            self.cursor_right();
            self.backspace();
            assert(self@ == without_next(old(self)@));
        }
    }

    /// Moves the cursor one character to the left.
    pub fn cursor_left(&mut self)
        requires
            old(self).wf(),
        ensures
            final(self).wf(),
            final(self)@ == moved_left(old(self)@),
    {
        let at: usize = self.char_index();
        if at > 0 {
            let chars = to_chars(self.buffer.as_str());
            self.place(chars.as_slice(), at - 1);
        }
    }

    /// Moves the cursor one character to the right.
    pub fn cursor_right(&mut self)
        requires
            old(self).wf(),
        ensures
            final(self).wf(),
            final(self)@ == moved_right(old(self)@),
    {
        let at: usize = self.char_index();
        let chars = to_chars(self.buffer.as_str());
        if at < chars.len() {
            self.place(chars.as_slice(), at + 1);
        }
    }

    /// Moves the cursor to the start.
    pub fn cursor_home(&mut self)
        requires
            old(self).wf(),
        ensures
            final(self).wf(),
            final(self)@ == (InputView { at: 0, ..old(self)@ }),
    {
        self.cursor = 0;
        proof {
            assert(self.buffer@.take(0) == Seq::<char>::empty());
            lemma_cursor_counts(self.buffer@, 0);
        }
    }

    /// Moves the cursor to the end.
    pub fn cursor_end(&mut self)
        requires
            old(self).history_idx is Some ==> old(self).history_idx->0 < old(self).history@.len(),
        ensures
            final(self).wf(),
            final(self)@ == (InputView { at: old(self)@.text.len() as int, ..old(self)@ }),
    {
        self.cursor = str_byte_len(self.buffer.as_str());
        proof {
            let n = self.buffer@.len() as int;
            assert(self.buffer@.take(n) == self.buffer@);
            lemma_cursor_counts(self.buffer@, n);
        }
    }

    /// Shows the line before in the history.
    pub fn history_prev(&mut self)
        requires
            old(self).wf(),
        ensures
            final(self).wf(),
            final(self)@ == older(old(self)@),
    {
        if self.history.len() == 0 {
            return ;
        }
        let idx: usize = match self.history_idx {
            None => self.history.len() - 1,
            Some(i) => {
                if i == 0 {
                    return ;
                }
                i - 1
            },
        };
        self.history_idx = Some(idx);
        self.buffer = self.history[idx].clone();
        self.cursor_end();
    }

    /// Shows the next line in the history.
    pub fn history_next(&mut self)
        requires
            old(self).wf(),
        ensures
            final(self).wf(),
            final(self)@ == newer(old(self)@),
    {
        match self.history_idx {
            None => {},
            Some(i) => {
                let n: usize = self.history.len();
                if i + 1 >= n {
                    self.history_idx = None;
                    self.buffer = String::new();
                    self.cursor_end();
                } else {
                    self.history_idx = Some(i + 1);
                    self.buffer = self.history[i + 1].clone();
                    self.cursor_end();
                }
            },
        }
    }

    /// Enters the text: it is handed out and joins the history. Blank text
    /// is not entered.
    pub fn submit(&mut self) -> (r: Option<String>)
        requires
            old(self).wf(),
        ensures
            final(self).wf(),
            is_blank(old(self)@.text) ==> r is None && final(self)@ == old(self)@,
            !is_blank(old(self)@.text) ==> r is Some && r->0@ == old(self)@.text && final(self)@
                == entered(old(self)@),
    {
        let chars = to_chars(self.buffer.as_str());
        if blank(chars.as_slice()) {
            return None;
        }
        let ghost v = self@;
        let text = self.buffer.clone();
        self.buffer = String::new();
        self.history_idx = None;
        self.cursor_end();
        let n: usize = self.history.len();
        let repeated = n > 0 && self.history[n - 1] == text;
        assert(n > 0 ==> v.history.last() == self.history@[n - 1]@);
        if !repeated {
            self.history.push(text.clone());
            assert(views(self.history@) == v.history.push(text@));
        }
        assert(self@.text == Seq::<char>::empty());
        Some(text)
    }

    /// The column of the cursor: the characters before it.
    pub fn cursor_col(&self) -> (r: usize)
        requires
            self.wf(),
        ensures
            r == self@.at,
    {
        self.char_index()
    }
}

impl Default for InputState {
    fn default() -> (r: InputState)
        ensures
            r.wf(),
            r@ == (InputView { text: Seq::empty(), at: 0, history: Seq::empty(), shown: None }),
    {
        let mut r = InputState {
            buffer: String::new(),
            cursor: 0,
            history: Vec::new(),
            history_idx: None,
        };
        r.cursor_end();
        assert(r@.history == Seq::<Seq<char>>::empty());
        assert(r@.text == Seq::<char>::empty());
        r
    }
}

/// Deleting what was just typed restores the text and the cursor.
pub proof fn backspace_undoes_typing(v: InputView, c: char)
    requires
        0 <= v.at <= v.text.len(),
    ensures
        without_previous(with_char(v, c)) == v,
{
    assert(v.text.insert(v.at, c).remove(v.at) == v.text);
}

/// One step to the right and one to the left come back to where they began,
/// unless the cursor stood at the end.
pub proof fn left_undoes_right(v: InputView)
    requires
        0 <= v.at < v.text.len(),
    ensures
        moved_left(moved_right(v)) == v,
{
}

/// One step to the left and one to the right come back to where they began,
/// unless the cursor stood at the start.
pub proof fn right_undoes_left(v: InputView)
    requires
        0 < v.at <= v.text.len(),
    ensures
        moved_right(moved_left(v)) == v,
{
}

/// Text that was entered is the first that going back in the history shows.
pub proof fn entered_text_comes_back(v: InputView)
    requires
        v.history.len() < usize::MAX,
    ensures
        older(entered(v)).text == v.text,
{
}

/// Going back in the history and on again shows the same line.
pub proof fn newer_undoes_older(v: InputView)
    requires
        v.shown is Some,
        0 < v.shown->0 < v.history.len() <= usize::MAX,
    ensures
        newer(older(v)) == showing(v, v.shown->0),
{
}

/// Entering the same text twice in a row records it once.
pub proof fn repeated_text_is_recorded_once(v: InputView, w: InputView)
    requires
        w.history == entered(v).history,
        w.text == v.text,
    ensures
        entered(w).history == entered(v).history,
{
}

/// Typing puts the character where the cursor is and the cursor behind it;
/// what stands on either side of it stays.
pub proof fn typing_puts_a_character_in(line: &mut InputState, c: char)
    requires
        old(line).wf(),
        call_ensures(InputState::insert_char, (line, c), ()),
    ensures
        ({
            let a = old(line)@;
            let b = final(line)@;
            &&& b.text == a.text.take(a.at) + seq![c] + a.text.skip(a.at)
            &&& b.at == a.at + 1
            &&& b.history == a.history && b.shown == a.shown
        }),
{
    let a = old(line)@;
    assert(a.text.insert(a.at, c) == a.text.take(a.at) + seq![c] + a.text.skip(a.at));
}

/// Backspace takes away the character before the cursor, Delete the one behind
/// it; where there is none nothing changes.
pub proof fn deleting_takes_one_character_away(back: &mut InputState, on: &mut InputState)
    requires
        old(back).wf(),
        *old(on) == *old(back),
        call_ensures(InputState::backspace, (back,), ()),
        call_ensures(InputState::delete, (on,), ()),
    ensures
        ({
            let a = old(back)@;
            let b = final(back)@;
            let d = final(on)@;
            &&& a.at == 0 ==> b == a
            &&& a.at > 0 ==> b.text == a.text.take(a.at - 1) + a.text.skip(a.at) && b.at == a.at - 1
                && b.history == a.history && b.shown == a.shown
            &&& a.at == a.text.len() ==> d == a
            &&& a.at < a.text.len() ==> d.text == a.text.take(a.at) + a.text.skip(a.at + 1)
                && d.at == a.at && d.history == a.history && d.shown == a.shown
        }),
{
    let a = old(back)@;
    if a.at > 0 {
        assert(a.text.remove(a.at - 1) == a.text.take(a.at - 1) + a.text.skip(a.at));
    }
    if a.at < a.text.len() {
        assert(a.text.remove(a.at) == a.text.take(a.at) + a.text.skip(a.at + 1));
    }
}

/// Moving the cursor changes nothing but its place, which stays within the
/// text: one to either side, or to either end.
pub proof fn moving_changes_the_place_alone(
    left: &mut InputState,
    right: &mut InputState,
    home: &mut InputState,
    end: &mut InputState,
)
    requires
        old(left).wf(),
        *old(right) == *old(left),
        *old(home) == *old(left),
        *old(end) == *old(left),
        call_ensures(InputState::cursor_left, (left,), ()),
        call_ensures(InputState::cursor_right, (right,), ()),
        call_ensures(InputState::cursor_home, (home,), ()),
        call_ensures(InputState::cursor_end, (end,), ()),
    ensures
        ({
            let a = old(left)@;
            let n = a.text.len() as int;
            &&& final(left)@ == (InputView {
                at: if a.at == 0 {
                    0
                } else {
                    a.at - 1
                },
                ..a
            })
            &&& final(right)@ == (InputView {
                at: if a.at == n {
                    n
                } else {
                    a.at + 1
                },
                ..a
            })
            &&& final(home)@ == (InputView { at: 0, ..a })
            &&& final(end)@ == (InputView { at: n, ..a })
        }),
{
}

/// Going back shows the newest line first and then each older one, up to the
/// oldest; going on shows each newer one and then an empty line.
pub proof fn history_is_walked_line_by_line(back: &mut InputState, on: &mut InputState)
    requires
        old(back).wf(),
        *old(on) == *old(back),
        call_ensures(InputState::history_prev, (back,), ()),
        call_ensures(InputState::history_next, (on,), ()),
    ensures
        ({
            let a = old(back)@;
            let b = final(back)@;
            let d = final(on)@;
            let n = a.history.len() as int;
            &&& b.history == a.history && d.history == a.history
            &&& a.shown is None && n > 0 ==> b.text == a.history[n - 1] && b.shown == Some(
                (n - 1) as usize,
            )
            &&& a.shown is Some && a.shown->0 > 0 ==> b.text == a.history[a.shown->0 - 1] && b.shown
                == Some((a.shown->0 - 1) as usize)
            &&& a.shown == Some(0usize) || n == 0 ==> b == a
            &&& a.shown is None ==> d == a
            &&& a.shown is Some && a.shown->0 + 1 < n ==> d.text == a.history[a.shown->0 + 1]
                && d.shown == Some((a.shown->0 + 1) as usize)
            &&& a.shown is Some && a.shown->0 + 1 == n ==> d.text.len() == 0 && d.shown is None
            &&& b != a ==> b.at == b.text.len()
            &&& d != a ==> d.at == d.text.len()
        }),
{
    let n = old(back).history.len();
    assert(n == old(back).history@.len());
    assert(old(back)@.history.len() == n);
}

/// Text that is not blank is handed out whole, the line is empty afterwards,
/// and the text is the newest of the history, which loses nothing.
pub proof fn entering_hands_the_text_out(line: &mut InputState, r: Option<String>)
    requires
        old(line).wf(),
        call_ensures(InputState::submit, (line,), r),
    ensures
        ({
            let a = old(line)@;
            let b = final(line)@;
            &&& r is Some == (exists|i: int| 0 <= i < a.text.len() && !is_space(#[trigger] a.text[i]))
            &&& r is None ==> b == a
            &&& r is Some ==> {
                &&& r->0@ == a.text
                &&& b.text.len() == 0 && b.at == 0 && b.shown is None
                &&& b.history.len() > 0 && b.history.last() == a.text
                &&& b.history == a.history || (b.history.drop_last() == a.history && (
                a.history.len() == 0 || a.history.last() != a.text))
            }
        }),
{
    let a = old(line)@;
    assert(a.history.push(a.text).drop_last() == a.history);
}

/// The column of the cursor is the number of characters before it.
pub proof fn column_counts_characters(line: &InputState, r: usize)
    requires
        line.wf(),
        call_ensures(InputState::cursor_col, (line,), r),
    ensures
        r <= line.buffer@.len(),
        byte_len(line.buffer@.take(r as int)) == line.cursor,
{
}

} // verus!
