//! The typing session: a cursor over the canonical text, the keystrokes
//! typed so far, and the ledger of mistakes.

use vstd::prelude::*;
use crate::canon::{assemble, canon_blocks};
use crate::content::Content;
use crate::position::Len;
use crate::style::{styling_fits, Style, Styling};
use crate::text::{
    byte_len, char_is_ascii_whitespace, chars_are_equal_including_unicode_alternatives, chars_match, chars_of,
    is_ascii_whitespace, is_position, lemma_byte_len_bounds, lemma_byte_len_prefix, lemma_byte_len_push,
    lemma_positions_agree, length_fits, utf8_len, utf8_width,
};

verus! {

/// A typing session over one chapter.
#[derive(Debug)]
pub struct Backend {
    text: String,
    chars: Vec<char>,
    typed: Vec<char>,
    cursor: Len,
    cursor_prev: Len,
    errors: Vec<Len>,
    deleted_errors: Vec<Len>,
    styling: Styling,
}

/// What a session holds, as plain values.
pub struct BackendView {
    /// The canonical text that is typed against.
    pub text: Seq<char>,
    /// Every keystroke so far, wrong ones included.
    pub typed: Seq<char>,
    pub cursor: Len,
    /// Where the cursor stood before the last operation that moved it.
    pub cursor_prev: Len,
    /// Where in the text a wrong keystroke stands, in rising order.
    pub errors: Seq<Len>,
    /// The mistakes that the last backspaces took out of the text.
    pub deleted_errors: Seq<Len>,
    pub styling: Styling,
}

/// The boundary before character `n` of `text`.
pub open spec fn boundary(text: Seq<char>, n: int) -> Len {
    Len { bytes: byte_len(text.take(n)) as usize, chars: n as usize }
}

/// How many of the first mistakes stand before character `chars`:
/// the index of the first one that does not.
pub open spec fn split_point(errors: Seq<Len>, chars: int) -> int
    decreases errors.len(),
{
    if errors.len() == 0 || errors[0].chars >= chars {
        0
    } else {
        1 + split_point(errors.drop_first(), chars)
    }
}

/// How many characters at the end of `s` are ASCII whitespace.
pub open spec fn trailing_space(s: Seq<char>) -> int
    decreases s.len(),
{
    if s.len() > 0 && is_ascii_whitespace(s.last()) {
        1 + trailing_space(s.drop_last())
    } else {
        0
    }
}

/// How many characters at the end of `s` are not ASCII whitespace.
pub open spec fn trailing_word(s: Seq<char>) -> int
    decreases s.len(),
{
    if s.len() > 0 && !is_ascii_whitespace(s.last()) {
        1 + trailing_word(s.drop_last())
    } else {
        0
    }
}

/// How many characters a word-wise backspace removes from `typed`: the
/// whitespace at its end and the word before that.
pub open spec fn word_span(typed: Seq<char>) -> int {
    let space = trailing_space(typed);
    space + trailing_word(typed.take(typed.len() - space))
}

/// Every mark is a character boundary of `text`.
pub open spec fn marks_in_text(text: Seq<char>, marks: Seq<Len>) -> bool {
    forall|i: int| 0 <= i < marks.len() ==> is_position(text, #[trigger] marks[i])
}

/// The marks stand in strictly rising order, all before character
/// `chars`.
pub open spec fn marks_rise_before(marks: Seq<Len>, chars: int) -> bool {
    &&& forall|i: int| 0 <= i < marks.len() ==> (#[trigger] marks[i]).chars < chars
    &&& forall|i: int, j: int| 0 <= i < j < marks.len() ==> (#[trigger] marks[i]).chars < (#[trigger] marks[j]).chars
}

impl BackendView {
    /// The session is sound: the cursor and all recorded places are
    /// character boundaries of the text, one keystroke was typed for each
    /// character behind the cursor, the mistakes stand in rising order
    /// behind the cursor, and the style index fits the text.
    pub open spec fn wf(self) -> bool {
        &&& byte_len(self.text) <= usize::MAX
        &&& is_position(self.text, self.cursor)
        &&& is_position(self.text, self.cursor_prev)
        &&& self.typed.len() == self.cursor.chars
        &&& marks_in_text(self.text, self.errors)
        &&& marks_rise_before(self.errors, self.cursor.chars as int)
        &&& marks_in_text(self.text, self.deleted_errors)
        &&& styling_fits(self.text, self.styling)
    }

    /// The session after the keystroke `c`.
    pub open spec fn advance(self, c: char) -> BackendView {
        if self.cursor.chars >= self.text.len() {
            self
        } else {
            let goal = self.text[self.cursor.chars as int];
            BackendView {
                typed: self.typed.push(c),
                errors: if chars_match(goal, c) {
                    self.errors
                } else {
                    self.errors.push(self.cursor)
                },
                cursor_prev: self.cursor,
                cursor: Len {
                    bytes: (self.cursor.bytes + utf8_width(goal)) as usize,
                    chars: (self.cursor.chars + 1) as usize,
                },
                ..self
            }
        }
    }

    /// The session after its last `count` keystrokes were taken back.
    /// Taking back none leaves it as it is.
    pub open spec fn retreat(self, count: int) -> BackendView {
        if count <= 0 || count > self.typed.len() {
            self
        } else {
            let cursor = boundary(self.text, self.cursor.chars - count);
            let k = split_point(self.errors, cursor.chars as int);
            BackendView {
                typed: self.typed.take(self.typed.len() - count),
                cursor,
                cursor_prev: self.cursor,
                errors: self.errors.take(k),
                deleted_errors: self.deleted_errors + self.errors.skip(k),
                ..self
            }
        }
    }

    /// The session after the mistakes that backspaces took out were
    /// shown.
    pub open spec fn end_cycle(self) -> BackendView {
        BackendView { deleted_errors: Seq::empty(), ..self }
    }
}

impl View for Backend {
    type V = BackendView;

    closed spec fn view(&self) -> BackendView {
        BackendView {
            text: self.text@,
            typed: self.typed@,
            cursor: self.cursor,
            cursor_prev: self.cursor_prev,
            errors: self.errors@,
            deleted_errors: self.deleted_errors@,
            styling: self.styling,
        }
    }
}

/// Where the mistakes are in rising order, the split point parts those
/// before `chars` from those at or behind it.
pub proof fn lemma_split_point(errors: Seq<Len>, chars: int)
    ensures
        0 <= split_point(errors, chars) <= errors.len(),
        forall|i: int| 0 <= i < split_point(errors, chars) ==> (#[trigger] errors[i]).chars < chars,
        split_point(errors, chars) < errors.len() ==> errors[split_point(errors, chars)].chars >= chars,
    decreases errors.len(),
{
    if errors.len() == 0 || errors[0].chars >= chars {
    } else {
        let rest = errors.drop_first();
        lemma_split_point(rest, chars);
        assert forall|i: int| 0 <= i < split_point(errors, chars) implies (#[trigger] errors[i]).chars < chars by {
            if i > 0 {
                assert(rest[i - 1] == errors[i]);
            }
        }
        if split_point(errors, chars) < errors.len() {
            assert(rest[split_point(rest, chars)] == errors[split_point(errors, chars)]);
        }
    }
}

/// The split point is the first index whose mistake is not before
/// `chars`.
pub proof fn lemma_split_point_is(errors: Seq<Len>, chars: int, k: int)
    requires
        0 <= k <= errors.len(),
        forall|i: int| 0 <= i < k ==> (#[trigger] errors[i]).chars < chars,
        k < errors.len() ==> errors[k].chars >= chars,
    ensures
        split_point(errors, chars) == k,
    decreases errors.len(),
{
    if errors.len() == 0 || errors[0].chars >= chars {
        if k > 0 {
            assert(errors[0].chars < chars);
        }
    } else {
        let rest = errors.drop_first();
        assert forall|i: int| 0 <= i < k - 1 implies (#[trigger] rest[i]).chars < chars by {
            assert(rest[i] == errors[i + 1]);
        }
        if k == 0 {
            assert(errors[0].chars >= chars);
        }
        lemma_split_point_is(rest, chars, k - 1);
    }
}

impl Backend {
    /// The session is sound; see [`BackendView::wf`].
    pub closed spec fn wf(&self) -> bool {
        &&& self.chars@ == self.text@
        &&& self@.wf()
    }

    /// A sound session has a sound view.
    pub proof fn lemma_wf(&self)
        requires
            self.wf(),
        ensures
            self@.wf(),
    {
    }

    /// A session at the start of the canonical text of `blocks`, with
    /// nothing typed.
    pub fn new(blocks: &Vec<Content>) -> (r: Backend)
        requires
            forall|i: int| 0 <= i < blocks.len() ==> (#[trigger] blocks[i]).wf(),
        ensures
            r.wf(),
            r@.text == canon_blocks(blocks@).chars,
            r@.typed == Seq::<char>::empty(),
            r@.cursor == (Len { bytes: 0, chars: 0 }),
            r@.cursor_prev == (Len { bytes: 0, chars: 0 }),
            r@.errors == Seq::<Len>::empty(),
            r@.deleted_errors == Seq::<Len>::empty(),
            canon_blocks(blocks@).styles.len() == byte_len(r@.text),
            forall|b: int|
                0 <= b < byte_len(r@.text) ==> r@.styling.style_at(b) == #[trigger] canon_blocks(blocks@).styles[b],
            forall|b: int| b >= byte_len(r@.text) ==> #[trigger] r@.styling.style_at(b) == 0,
    {
        let (text, styling) = assemble(blocks);
        let chars = chars_of(text.as_str());
        length_fits(text.as_str());
        proof {
            assert(text@.take(0) == Seq::<char>::empty());
        }
        Backend {
            text,
            chars,
            typed: Vec::new(),
            cursor: Len::zero(),
            cursor_prev: Len::zero(),
            errors: Vec::new(),
            deleted_errors: Vec::new(),
            styling,
        }
    }

    /// The canonical text that is typed against.
    pub fn text(&self) -> (r: &str)
        ensures
            r@ == self@.text,
    {
        self.text.as_str()
    }

    /// Where the cursor stands.
    pub fn cursor(&self) -> (r: Len)
        ensures
            r == self@.cursor,
    {
        self.cursor
    }

    /// Where the cursor stood before the last operation that moved it.
    pub fn last_cursor_position(&self) -> (r: Len)
        ensures
            r == self@.cursor_prev,
    {
        self.cursor_prev
    }

    /// Where wrong keystrokes stand in the text, in rising order.
    pub fn errors(&self) -> (r: &[Len])
        ensures
            r@ == self@.errors,
    {
        self.errors.as_slice()
    }

    /// The mistakes that backspaces took out of the text since they were
    /// last cleared.
    pub fn backspaced_errors(&self) -> (r: &[Len])
        ensures
            r@ == self@.deleted_errors,
    {
        self.deleted_errors.as_slice()
    }

    /// The keystrokes typed so far.
    pub fn typed(&self) -> (r: &[char])
        ensures
            r@ == self@.typed,
    {
        self.typed.as_slice()
    }

    /// Forgets the mistakes that backspaces took out, once they were
    /// shown.
    pub fn clear_per_update_data(&mut self)
        requires
            old(self).wf(),
        ensures
            final(self).wf(),
            final(self)@ == old(self)@.end_cycle(),
    {
        self.deleted_errors.truncate(0);
        proof {
            assert(self.deleted_errors@ == Seq::<Len>::empty());
        }
    }

    /// Takes the keystroke `c` for the character at the cursor and moves
    /// the cursor behind that character, right or wrong. At the end of the
    /// text nothing happens.
    pub fn push(&mut self, c: char)
        requires
            old(self).wf(),
        ensures
            final(self).wf(),
            final(self)@ == old(self)@.advance(c),
    {
        if self.cursor.chars >= self.chars.len() {
            return ;
        }
        let goal = self.chars[self.cursor.chars];
        let ghost text = self.text@;
        let ghost n = self.cursor.chars as int;
        proof {
            assert(text.take(n + 1) == text.take(n).push(goal));
            lemma_byte_len_push(text.take(n), goal);
            lemma_byte_len_prefix(text, n, n + 1);
        }
        self.typed.push(c);
        if !chars_are_equal_including_unicode_alternatives(goal, c) {
            self.errors.push(self.cursor);
        }
        self.cursor_prev = self.cursor;
        self.cursor = Len::new(self.cursor.bytes + utf8_len(goal), self.cursor.chars + 1);
    }

    /// Takes back the last `count` keystrokes.
    #[verifier::loop_isolation(false)]
    fn delete_backwards_impl(&mut self, count: usize)
        requires
            old(self).wf(),
            0 < count <= old(self)@.typed.len(),
        ensures
            final(self).wf(),
            final(self)@ == old(self)@.retreat(count as int),
    {
        let ghost text = self.text@;
        let ghost before = self@;
        let target = self.cursor.chars - count;
        let mut bytes = self.cursor.bytes;
        let mut j = self.cursor.chars;
        while j > target
            invariant
                target <= j <= self.cursor.chars <= text.len(),
                self.chars@ == text,
                bytes == byte_len(text.take(j as int)),
            decreases j,
        {
            j -= 1;
            proof {
                assert(text.take(j + 1) == text.take(j as int).push(text[j as int]));
                lemma_byte_len_push(text.take(j as int), text[j as int]);
            }
            bytes -= utf8_len(self.chars[j]);
        }
        let mut k: usize = 0;
        while k < self.errors.len() && self.errors[k].chars < target
            invariant
                k <= self.errors.len(),
                forall|i: int| 0 <= i < k ==> (#[trigger] self.errors[i]).chars < target,
            decreases self.errors.len() - k,
        {
            k += 1;
        }
        proof {
            lemma_split_point_is(before.errors, target as int, k as int);
        }
        let mut moved: Vec<Len> = Vec::new();
        let mut i: usize = k;
        while i < self.errors.len()
            invariant
                k <= i <= self.errors.len(),
                moved@ == before.errors.subrange(k as int, i as int),
            decreases self.errors.len() - i,
        {
            moved.push(self.errors[i]);
            i += 1;
        }
        let keep = self.typed.len() - count;
        self.typed.truncate(keep);
        self.cursor_prev = self.cursor;
        self.cursor = Len::new(bytes, target);
        self.errors.truncate(k);
        self.deleted_errors.append(&mut moved);
        proof {
            assert(before.errors.subrange(k as int, before.errors.len() as int) == before.errors.skip(k as int));
            assert(self@.typed == before.typed.take(before.typed.len() - count));
            assert(self@.errors == before.errors.take(k as int));
            assert(self@.deleted_errors == before.deleted_errors + before.errors.skip(k as int));
            assert forall|p: int| 0 <= p < self@.deleted_errors.len() implies is_position(
                text,
                #[trigger] self@.deleted_errors[p],
            ) by {
                if p >= before.deleted_errors.len() {
                    assert(self@.deleted_errors[p] == before.errors[k + (p - before.deleted_errors.len())]);
                }
            }
        }
    }

    /// Takes back the last keystroke and moves the cursor back by one
    /// character. With nothing typed, nothing happens.
    pub fn pop(&mut self)
        requires
            old(self).wf(),
        ensures
            final(self).wf(),
            final(self)@ == old(self)@.retreat(1),
    {
        if self.typed.len() == 0 {
            return ;
        }
        self.delete_backwards_impl(1);
    }

    /// Takes back the whitespace at the end of what was typed and the
    /// word before it. With nothing typed, nothing happens.
    pub fn delete_word_backwards(&mut self)
        requires
            old(self).wf(),
        ensures
            final(self).wf(),
            final(self)@ == old(self)@.retreat(word_span(old(self)@.typed)),
    {
        let n = self.typed.len();
        let mut i = n;
        proof {
            assert(self.typed@.take(n as int) == self.typed@);
        }
        while i > 0 && char_is_ascii_whitespace(self.typed[i - 1])
            invariant
                i <= n == self.typed.len(),
                trailing_space(self.typed@) == (n - i) + trailing_space(self.typed@.take(i as int)),
            decreases i,
        {
            proof {
                assert(self.typed@.take(i as int).drop_last() == self.typed@.take(i - 1));
            }
            i -= 1;
        }
        let space = n - i;
        while i > 0 && !char_is_ascii_whitespace(self.typed[i - 1])
            invariant
                i <= n - space,
                n == self.typed.len(),
                trailing_word(self.typed@.take(n - space)) == (n - space - i) + trailing_word(self.typed@.take(i as int)),
            decreases i,
        {
            proof {
                assert(self.typed@.take(i as int).drop_last() == self.typed@.take(i - 1));
            }
            i -= 1;
        }
        if n - i > 0 {
            self.delete_backwards_impl(n - i);
        }
    }

    /// The pieces of one style between `start` and `end`, each with its
    /// style and its length.
    pub fn style_iter(&self, start: Len, end: Len) -> (r: Vec<(Style, Len)>)
        requires
            self.wf(),
            is_position(self@.text, start),
            is_position(self@.text, end),
            start.bytes <= end.bytes,
        ensures
            self@.styling.is_segmentation(start, end, r@),
    {
        proof {
            lemma_positions_agree(self@.text, start, end);
        }
        self.styling.iter(start, end)
    }
}

/// In every sound session as many keystrokes have been typed as the
/// cursor has passed characters.
pub proof fn lemma_typed_matches_cursor(session: &Backend)
    requires
        session.wf(),
    ensures
        session@.typed.len() == session@.cursor.chars,
{
}

/// A keystroke leaves a sound session sound.
pub proof fn lemma_advance_keeps_wf(v: BackendView, c: char)
    requires
        v.wf(),
    ensures
        v.advance(c).wf(),
{
    if v.cursor.chars < v.text.len() {
        let n = v.cursor.chars as int;
        let goal = v.text[n];
        assert(v.text.take(n + 1) == v.text.take(n).push(goal));
        lemma_byte_len_push(v.text.take(n), goal);
        lemma_byte_len_prefix(v.text, n, n + 1);
        lemma_byte_len_bounds(v.text);
    }
}

/// Taking keystrokes back leaves a sound session sound.
pub proof fn lemma_retreat_keeps_wf(v: BackendView, count: int)
    requires
        v.wf(),
    ensures
        v.retreat(count).wf(),
{
    if 0 < count <= v.typed.len() {
        let target = v.cursor.chars - count;
        let r = v.retreat(count);
        lemma_byte_len_prefix(v.text, target, v.text.len() as int);
        lemma_byte_len_bounds(v.text);
        lemma_split_point(v.errors, target);
        let k = split_point(v.errors, target);
        assert forall|i: int| 0 <= i < r.deleted_errors.len() implies is_position(v.text, #[trigger] r.deleted_errors[i]) by {
            if i >= v.deleted_errors.len() {
                assert(r.deleted_errors[i] == v.errors[k + (i - v.deleted_errors.len())]);
            }
        }
    }
}

/// A keystroke followed at once by a backspace restores the cursor, the
/// keystrokes and the mistakes. A mistake that the keystroke made is gone
/// from the mistakes and set down among the deleted ones. The cursor must
/// not stand at the end of a text that is not empty: there the keystroke
/// does nothing, and the backspace would take back an earlier one.
pub proof fn lemma_advance_then_retreat(v: BackendView, c: char)
    requires
        v.wf(),
        v.cursor.chars < v.text.len() || v.text.len() == 0,
    ensures
        v.advance(c).retreat(1).text == v.text,
        v.advance(c).retreat(1).cursor == v.cursor,
        v.advance(c).retreat(1).typed == v.typed,
        v.advance(c).retreat(1).errors == v.errors,
        v.advance(c).retreat(1).deleted_errors == (if v.cursor.chars < v.text.len() && !chars_match(
            v.text[v.cursor.chars as int],
            c,
        ) {
            v.deleted_errors.push(v.cursor)
        } else {
            v.deleted_errors
        }),
{
    if v.cursor.chars < v.text.len() {
        lemma_advance_keeps_wf(v, c);
        let n = v.cursor.chars as int;
        let a = v.advance(c);
        lemma_split_point_is(a.errors, n, v.errors.len() as int);
        assert(a.typed.take(a.typed.len() - 1) == v.typed);
        assert(a.errors.take(v.errors.len() as int) == v.errors);
        if chars_match(v.text[n], c) {
            assert(a.errors.skip(v.errors.len() as int) == Seq::<Len>::empty());
            assert(v.deleted_errors + Seq::<Len>::empty() == v.deleted_errors);
        } else {
            assert(a.errors.skip(v.errors.len() as int) == seq![v.cursor]);
            assert(v.deleted_errors + seq![v.cursor] == v.deleted_errors.push(v.cursor));
        }
    }
}

} // verus!
