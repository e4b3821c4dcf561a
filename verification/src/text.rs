//! Characters, their UTF-8 widths, and the whitespace and punctuation rules
//! that shape the canonical text.

use vstd::prelude::*;
use vstd::string::*;
use vstd::utf8::*;
use crate::position::Len;

verus! {

/// `String::push` appends one character.
pub assume_specification[ String::push ](s: &mut String, c: char)
    ensures
        final(s)@ == old(s)@.push(c),
;

/// `String::pop` removes the last character and hands it out, or leaves an
/// empty string as it is.
pub assume_specification[ String::pop ](s: &mut String) -> (r: Option<char>)
    ensures
        old(s)@.len() == 0 ==> r is None && final(s)@ == old(s)@,
        old(s)@.len() > 0 ==> r == Some(old(s)@.last()) && final(s)@ == old(s)@.drop_last(),
;

/// Number of bytes that the UTF-8 encoding of `c` takes.
pub open spec fn utf8_width(c: char) -> nat {
    if c as u32 <= 0x7F {
        1
    } else if c as u32 <= 0x7FF {
        2
    } else if c as u32 <= 0xFFFF {
        3
    } else {
        4
    }
}

/// Number of bytes that the UTF-8 encoding of `s` takes.
pub open spec fn byte_len(s: Seq<char>) -> nat
    decreases s.len(),
{
    if s.len() == 0 {
        0
    } else {
        byte_len(s.drop_last()) + utf8_width(s.last())
    }
}

/// `p` is the offset of a character boundary of `text`.
pub open spec fn is_position(text: Seq<char>, p: Len) -> bool {
    &&& p.chars <= text.len()
    &&& p.bytes == byte_len(text.take(p.chars as int))
}

/// One more character takes its own width more.
pub proof fn lemma_byte_len_push(s: Seq<char>, c: char)
    ensures
        byte_len(s.push(c)) == byte_len(s) + utf8_width(c),
{
    assert(s.push(c).drop_last() == s);
}

/// Two texts in a row take what each takes.
pub proof fn lemma_byte_len_concat(a: Seq<char>, b: Seq<char>)
    ensures
        byte_len(a + b) == byte_len(a) + byte_len(b),
    decreases b.len(),
{
    if b.len() == 0 {
        assert(a + b == a);
    } else {
        assert((a + b).drop_last() == a + b.drop_last());
        lemma_byte_len_concat(a, b.drop_last());
    }
}

/// Every character takes at least one byte and at most four.
pub proof fn lemma_byte_len_bounds(s: Seq<char>)
    ensures
        s.len() <= byte_len(s) <= 4 * s.len(),
    decreases s.len(),
{
    if s.len() > 0 {
        lemma_byte_len_bounds(s.drop_last());
    }
}

/// A longer prefix takes more bytes, a strictly longer one strictly more.
pub proof fn lemma_byte_len_prefix(s: Seq<char>, i: int, j: int)
    requires
        0 <= i <= j <= s.len(),
    ensures
        byte_len(s.take(i)) + (j - i) <= byte_len(s.take(j)),
        byte_len(s.take(j)) <= byte_len(s),
{
    assert(s.take(j) == s.take(i) + s.subrange(i, j));
    lemma_byte_len_concat(s.take(i), s.subrange(i, j));
    lemma_byte_len_bounds(s.subrange(i, j));
    assert(s == s.take(j) + s.skip(j));
    lemma_byte_len_concat(s.take(j), s.skip(j));
}

/// Two character boundaries of one text are ordered alike by bytes and by
/// characters.
pub proof fn lemma_positions_agree(text: Seq<char>, p: Len, q: Len)
    requires
        is_position(text, p),
        is_position(text, q),
    ensures
        p.agrees(q),
{
    if p.chars <= q.chars {
        lemma_byte_len_prefix(text, p.chars as int, q.chars as int);
    } else {
        lemma_byte_len_prefix(text, q.chars as int, p.chars as int);
    }
}

/// The encoding that vstd attributes to a string has the length counted
/// here.
pub proof fn lemma_byte_len_is_encoded_len(s: Seq<char>)
    ensures
        encode_utf8(s).len() == byte_len(s),
    decreases s.len(),
{
    if s.len() > 0 {
        let c = s[0];
        char_is_scalar(c);
        assert(encode_scalar(c as u32).len() == utf8_width(c));
        lemma_byte_len_is_encoded_len(s.drop_first());
        assert(s == seq![c] + s.drop_first());
        lemma_byte_len_concat(seq![c], s.drop_first());
        assert(seq![c] == Seq::<char>::empty().push(c));
        lemma_byte_len_push(Seq::<char>::empty(), c);
    }
}

/// Number of bytes that `c` takes in UTF-8.
pub fn utf8_len(c: char) -> (n: usize)
    ensures
        n == utf8_width(c),
{
    let v: u32 = c as u32;
    if v <= 0x7F {
        1
    } else if v <= 0x7FF {
        2
    } else if v <= 0xFFFF {
        3
    } else {
        4
    }
}

/// Number of bytes that `s` takes.
pub fn byte_count(s: &str) -> (n: usize)
    ensures
        n == byte_len(s@),
        s@.len() <= n,
{
    proof {
        lemma_byte_len_is_encoded_len(s@);
        lemma_byte_len_bounds(s@);
    }
    s.as_bytes().len()
}

/// Learns from the string itself that its bytes, and so its characters,
/// can be counted in a `usize`.
pub fn length_fits(s: &str)
    ensures
        s@.len() <= byte_len(s@) <= usize::MAX,
{
    let _ = byte_count(s);
}

/// The characters of `s`.
pub fn chars_of(s: &str) -> (r: Vec<char>)
    ensures
        r@ == s@,
{
    let mut out: Vec<char> = Vec::new();
    for c in it: s.chars()
        invariant
            out@ == it.seq().take(it.index() as int),
            it.seq() == s@,
    {
        out.push(c);
    }
    out
}

/// The string made of `chars[from..to]`.
pub fn string_of(chars: &Vec<char>, from: usize, to: usize) -> (r: String)
    requires
        from <= to <= chars.len(),
    ensures
        r@ == chars@.subrange(from as int, to as int),
{
    let mut s = String::new();
    let mut i: usize = from;
    while i < to
        invariant
            from <= i <= to <= chars.len(),
            s@ == chars@.subrange(from as int, i as int),
        decreases to - i,
    {
        s.push(chars[i]);
        i += 1;
    }
    s
}

/// The characters with the Unicode property `White_Space`.
pub open spec fn is_whitespace(c: char) -> bool {
    let v = c as u32;
    ||| 0x09 <= v <= 0x0D
    ||| v == 0x20
    ||| v == 0x85
    ||| v == 0xA0
    ||| v == 0x1680
    ||| 0x2000 <= v <= 0x200A
    ||| v == 0x2028
    ||| v == 0x2029
    ||| v == 0x202F
    ||| v == 0x205F
    ||| v == 0x3000
}

/// Space, tab, line feed, form feed and carriage return.
pub open spec fn is_ascii_whitespace(c: char) -> bool {
    let v = c as u32;
    v == 0x20 || v == 0x09 || v == 0x0A || v == 0x0C || v == 0x0D
}

/// Whether `c` has the Unicode property `White_Space`.
pub fn char_is_whitespace(c: char) -> (r: bool)
    ensures
        r == is_whitespace(c),
{
    let v: u32 = c as u32;
    (0x09 <= v && v <= 0x0D) || v == 0x20 || v == 0x85 || v == 0xA0 || v == 0x1680 || (0x2000 <= v && v
        <= 0x200A) || v == 0x2028 || v == 0x2029 || v == 0x202F || v == 0x205F || v == 0x3000
}

/// Whether `c` is a space, tab, line feed, form feed or carriage return.
pub fn char_is_ascii_whitespace(c: char) -> (r: bool)
    ensures
        r == is_ascii_whitespace(c),
{
    let v: u32 = c as u32;
    v == 0x20 || v == 0x09 || v == 0x0A || v == 0x0C || v == 0x0D
}

/// `s` without the whitespace at its end.
pub open spec fn trim_end(s: Seq<char>) -> Seq<char>
    decreases s.len(),
{
    if s.len() > 0 && is_whitespace(s.last()) {
        trim_end(s.drop_last())
    } else {
        s
    }
}

/// `s` without the whitespace at its start.
pub open spec fn trim_start(s: Seq<char>) -> Seq<char>
    decreases s.len(),
{
    if s.len() > 0 && is_whitespace(s[0]) {
        trim_start(s.drop_first())
    } else {
        s
    }
}

/// What is left of a trimmed text is a prefix that does not end in
/// whitespace, and all that was cut is whitespace.
pub proof fn lemma_trim_end(s: Seq<char>)
    ensures
        trim_end(s).len() <= s.len(),
        trim_end(s) == s.take(trim_end(s).len() as int),
        trim_end(s).len() > 0 ==> !is_whitespace(trim_end(s).last()),
        forall|i: int| trim_end(s).len() <= i < s.len() ==> is_whitespace(#[trigger] s[i]),
    decreases s.len(),
{
    if s.len() > 0 && is_whitespace(s.last()) {
        lemma_trim_end(s.drop_last());
        let t = trim_end(s.drop_last());
        assert(s.drop_last().take(t.len() as int) == s.take(t.len() as int));
        assert forall|i: int| t.len() <= i < s.len() implies is_whitespace(#[trigger] s[i]) by {
            if i < s.len() - 1 {
                assert(s.drop_last()[i] == s[i]);
            }
        }
    } else {
        assert(s.take(s.len() as int) == s);
    }
}

/// Removes the whitespace at the end of `s` and says how many characters
/// went.
pub fn trim_end_in_place(s: &mut String) -> (count: usize)
    ensures
        final(s)@ == trim_end(old(s)@),
        count == old(s)@.len() - final(s)@.len(),
{
    let mut count: usize = 0;
    let ghost start = s@;
    length_fits(s.as_str());
    loop
        invariant
            trim_end(s@) == trim_end(start),
            s@.len() + count == start.len(),
            start.len() <= usize::MAX,
        ensures
            s@ == trim_end(start),
            count == start.len() - s@.len(),
        decreases s@.len(),
    {
        let ghost before = s@;
        match s.pop() {
            None => {
                break ;
            },
            Some(c) => {
                if char_is_whitespace(c) {
                    count += 1;
                } else {
                    s.push(c);
                    proof {
                        assert(s@ == before);
                    }
                    break ;
                }
            },
        }
    }
    count
}

/// The text that stands for `c` in the canonical text: two hyphens for an
/// em dash, three full stops for an ellipsis, `c` itself otherwise.
pub open spec fn replacement(c: char) -> Seq<char> {
    if c == '\u{2014}' {
        seq!['-', '-']
    } else if c == '\u{2026}' {
        seq!['.', '.', '.']
    } else {
        seq![c]
    }
}

/// `s` with every em dash and ellipsis replaced.
pub open spec fn replace_multichars(s: Seq<char>) -> Seq<char>
    decreases s.len(),
{
    if s.len() == 0 {
        s
    } else {
        replace_multichars(s.drop_last()) + replacement(s.last())
    }
}

/// Appends to `out` what stands for `c` in the canonical text.
pub fn push_replaced(out: &mut String, c: char)
    ensures
        final(out)@ == old(out)@ + replacement(c),
{
    if c == '\u{2014}' {
        out.push('-');
        out.push('-');
    } else if c == '\u{2026}' {
        out.push('.');
        out.push('.');
        out.push('.');
    } else {
        out.push(c);
    }
}

/// `s` with every em dash replaced by two hyphens and every ellipsis by
/// three full stops.
pub fn replace_unicode_multichars(s: &str) -> (r: String)
    ensures
        r@ == replace_multichars(s@),
{
    let chars = chars_of(s);
    let mut out = String::new();
    let mut i: usize = 0;
    while i < chars.len()
        invariant
            i <= chars.len(),
            chars@ == s@,
            out@ == replace_multichars(chars@.take(i as int)),
        decreases chars.len() - i,
    {
        proof {
            assert(chars@.take(i + 1).drop_last() == chars@.take(i as int));
        }
        push_replaced(&mut out, chars[i]);
        i += 1;
    }
    proof {
        assert(chars@.take(chars.len() as int) == chars@);
    }
    out
}

/// Whether the keystroke `got` counts for the character `expected` of the
/// text: the same character, or the plain apostrophe, double quote or
/// space for one of its typographic forms.
pub open spec fn chars_match(expected: char, got: char) -> bool {
    ||| expected == got
    ||| got == '\'' && (expected == '\u{2018}' || expected == '\u{2019}')
    ||| got == '"' && (expected == '\u{201C}' || expected == '\u{201D}')
    ||| got == ' ' && expected == '\u{A0}'
}

/// Whether the keystroke `got` counts for the character `expected`.
pub fn chars_are_equal_including_unicode_alternatives(expected: char, got: char) -> (r: bool)
    ensures
        r == chars_match(expected, got),
{
    if expected == got {
        true
    } else if got == '\'' {
        expected == '\u{2018}' || expected == '\u{2019}'
    } else if got == '"' {
        expected == '\u{201C}' || expected == '\u{201D}'
    } else if got == ' ' {
        expected == '\u{A0}'
    } else {
        false
    }
}

/// The texts of `items`, as plain values.
pub open spec fn texts(items: Seq<String>) -> Seq<Seq<char>> {
    Seq::new(items.len(), |i: int| items[i]@)
}

/// What `str::to_lowercase` makes of `s`.
pub uninterp spec fn lowered(s: Seq<char>) -> Seq<char>;

/// `str::to_lowercase`: the lowercase form of a text by the rules of
/// Unicode, a function of the text.
#[verifier::external_body]
pub(crate) fn lowercase(s: &str) -> (r: String)
    ensures
        r@ == lowered(s@),
{
    s.to_lowercase()
}

/// Index of the last `c` in `s`.
pub open spec fn last_index_of(s: Seq<char>, c: char) -> Option<int>
    decreases s.len(),
{
    if s.len() == 0 {
        None
    } else if s.last() == c {
        Some(s.len() - 1)
    } else {
        last_index_of(s.drop_last(), c)
    }
}

/// The last index of a character is an index at which it stands.
pub proof fn lemma_last_index_of(s: Seq<char>, c: char)
    ensures
        last_index_of(s, c) matches Some(i) ==> 0 <= i < s.len() && s[i] == c,
    decreases s.len(),
{
    if s.len() > 0 && s.last() != c {
        lemma_last_index_of(s.drop_last(), c);
    }
}

/// `s` cut at its last `c`: what is before it and what is behind it.
pub fn split_last(s: &str, c: char) -> (r: Option<(String, String)>)
    ensures
        (match last_index_of(s@, c) {
            Some(i) => r matches Some(parts) && parts.0@ == s@.take(i) && parts.1@ == s@.skip(i + 1),
            None => r is None,
        }),
{
    let chars = chars_of(s);
    let mut i = chars.len();
    proof {
        assert(chars@.take(i as int) == chars@);
    }
    while i > 0
        invariant
            i <= chars.len(),
            chars@ == s@,
            last_index_of(s@, c) == last_index_of(chars@.take(i as int), c),
        decreases i,
    {
        proof {
            assert(chars@.take(i as int).drop_last() == chars@.take(i - 1));
        }
        if chars[i - 1] == c {
            let before = string_of(&chars, 0, i - 1);
            let after = string_of(&chars, i, chars.len());
            return Some((before, after));
        }
        i -= 1;
    }
    None
}

/// `s` without the whitespace at both ends.
pub open spec fn trim(s: Seq<char>) -> Seq<char> {
    trim_end(trim_start(s))
}

/// The characters `chars[from..to]`.
pub fn slice_of(chars: &Vec<char>, from: usize, to: usize) -> (r: Vec<char>)
    requires
        from <= to <= chars.len(),
    ensures
        r@ == chars@.subrange(from as int, to as int),
{
    let mut out: Vec<char> = Vec::new();
    let mut i: usize = from;
    while i < to
        invariant
            from <= i <= to <= chars.len(),
            out@ == chars@.subrange(from as int, i as int),
        decreases to - i,
    {
        out.push(chars[i]);
        i += 1;
    }
    out
}

/// Where `chars` trimmed at its start begins.
pub fn trim_start_at(chars: &Vec<char>) -> (r: usize)
    ensures
        r <= chars.len(),
        chars@.skip(r as int) == trim_start(chars@),
{
    let mut i: usize = 0;
    proof {
        assert(chars@.skip(0) == chars@);
    }
    while i < chars.len() && char_is_whitespace(chars[i])
        invariant
            i <= chars.len(),
            trim_start(chars@) == trim_start(chars@.skip(i as int)),
        decreases chars.len() - i,
    {
        proof {
            assert(chars@.skip(i as int).drop_first() == chars@.skip(i + 1));
        }
        i += 1;
    }
    i
}

/// Where `chars[from..]` trimmed at its end stops.
pub fn trim_end_at(chars: &Vec<char>, from: usize) -> (r: usize)
    requires
        from <= chars.len(),
    ensures
        from <= r <= chars.len(),
        chars@.subrange(from as int, r as int) == trim_end(chars@.skip(from as int)),
{
    let mut i: usize = chars.len();
    proof {
        assert(chars@.subrange(from as int, i as int) == chars@.skip(from as int));
    }
    while i > from && char_is_whitespace(chars[i - 1])
        invariant
            from <= i <= chars.len(),
            trim_end(chars@.skip(from as int)) == trim_end(chars@.subrange(from as int, i as int)),
        decreases i,
    {
        proof {
            assert(chars@.subrange(from as int, i as int).drop_last() == chars@.subrange(from as int, i - 1));
        }
        i -= 1;
    }
    i
}

/// `chars` without the whitespace at both ends.
pub fn trimmed(chars: &Vec<char>) -> (r: Vec<char>)
    ensures
        r@ == trim(chars@),
{
    let from = trim_start_at(chars);
    let to = trim_end_at(chars, from);
    slice_of(chars, from, to)
}

/// Whether `s` has `pattern` at `at`.
pub open spec fn has_at(s: Seq<char>, pattern: Seq<char>, at: int) -> bool {
    0 <= at && at + pattern.len() <= s.len() && s.subrange(at, at + pattern.len()) == pattern
}

/// `s` with every `from` replaced by `to`, found from left to right and
/// not overlapping. `from` must not be empty.
pub open spec fn replaced(s: Seq<char>, from: Seq<char>, to: Seq<char>) -> Seq<char>
    decreases s.len(),
{
    if from.len() == 0 || s.len() == 0 {
        s
    } else if has_at(s, from, 0) {
        to + replaced(s.skip(from.len() as int), from, to)
    } else {
        seq![s[0]] + replaced(s.drop_first(), from, to)
    }
}

/// Whether `chars` has `pattern` at `at`.
pub fn matches_at(chars: &Vec<char>, pattern: &Vec<char>, at: usize) -> (r: bool)
    requires
        at <= chars.len(),
    ensures
        r == has_at(chars@, pattern@, at as int),
{
    if pattern.len() > chars.len() - at {
        return false;
    }
    let mut j: usize = 0;
    while j < pattern.len()
        invariant
            j <= pattern.len(),
            at + pattern.len() <= chars.len(),
            forall|k: int| 0 <= k < j ==> chars@[at + k] == pattern@[k],
        decreases pattern.len() - j,
    {
        if chars[at + j] != pattern[j] {
            proof {
                assert(chars@.subrange(at as int, at + pattern.len())[j as int] != pattern@[j as int]);
            }
            return false;
        }
        j += 1;
    }
    proof {
        assert(chars@.subrange(at as int, at + pattern.len()) == pattern@);
    }
    true
}

/// `chars` with every `from` replaced by `to`.
pub fn replace_all(chars: &Vec<char>, from: &Vec<char>, to: &Vec<char>) -> (r: Vec<char>)
    requires
        from.len() > 0,
    ensures
        r@ == replaced(chars@, from@, to@),
{
    let mut out: Vec<char> = Vec::new();
    let mut i: usize = 0;
    proof {
        assert(chars@.skip(0) == chars@);
    }
    while i < chars.len()
        invariant
            i <= chars.len(),
            from.len() > 0,
            out@ + replaced(chars@.skip(i as int), from@, to@) == replaced(chars@, from@, to@),
        decreases chars.len() - i,
    {
        let ghost rest = chars@.skip(i as int);
        let ghost before = out@;
        if matches_at(chars, from, i) {
            proof {
                assert(rest.subrange(0, from.len() as int) == chars@.subrange(i as int, i + from.len()));
                assert(rest.skip(from.len() as int) == chars@.skip(i + from.len()));
            }
            let mut j: usize = 0;
            while j < to.len()
                invariant
                    j <= to.len(),
                    out@ == before + to@.take(j as int),
                decreases to.len() - j,
            {
                out.push(to[j]);
                j += 1;
                proof {
                    assert(to@.take(j as int) == to@.take(j - 1).push(to@[j - 1]));
                }
            }
            proof {
                assert(to@.take(to.len() as int) == to@);
                assert((before + to@) + replaced(chars@.skip(i + from.len()), from@, to@) == before + (to@
                    + replaced(chars@.skip(i + from.len()), from@, to@)));
            }
            i += from.len();
        } else {
            proof {
                if i + from.len() <= chars.len() {
                    assert(rest.subrange(0, from.len() as int) == chars@.subrange(i as int, i + from.len()));
                }
                assert(rest.drop_first() == chars@.skip(i + 1));
                assert((before + seq![rest[0]]) + replaced(chars@.skip(i + 1), from@, to@) == before + (
                seq![rest[0]] + replaced(chars@.skip(i + 1), from@, to@)));
            }
            out.push(chars[i]);
            proof {
                assert(out@ == before + seq![rest[0]]);
            }
            i += 1;
        }
    }
    proof {
        assert(out@ + Seq::<char>::empty() == out@);
    }
    out
}

/// Index of the first `c` in `s`.
pub open spec fn first_index_of(s: Seq<char>, c: char) -> Option<int>
    decreases s.len(),
{
    if s.len() == 0 {
        None
    } else if s[0] == c {
        Some(0)
    } else {
        match first_index_of(s.drop_first(), c) {
            Some(i) => Some(i + 1),
            None => None,
        }
    }
}

/// The first index of a character is an index at which it stands.
pub proof fn lemma_first_index_of(s: Seq<char>, c: char)
    ensures
        first_index_of(s, c) matches Some(i) ==> 0 <= i < s.len() && s[i] == c,
    decreases s.len(),
{
    if s.len() > 0 && s[0] != c {
        lemma_first_index_of(s.drop_first(), c);
    }
}

/// Where the first `c` stands in `chars`.
pub fn find_first(chars: &Vec<char>, c: char) -> (r: Option<usize>)
    ensures
        (match first_index_of(chars@, c) {
            Some(i) => r == Some(i as usize) && 0 <= i < chars.len(),
            None => r is None,
        }),
{
    let mut i: usize = 0;
    proof {
        assert(chars@.skip(0) == chars@);
    }
    while i < chars.len()
        invariant
            i <= chars.len(),
            first_index_of(chars@, c) == (match first_index_of(chars@.skip(i as int), c) {
                Some(k) => Some(k + i),
                None => None,
            }),
        decreases chars.len() - i,
    {
        proof {
            assert(chars@.skip(i as int).drop_first() == chars@.skip(i + 1));
        }
        if chars[i] == c {
            return Some(i);
        }
        i += 1;
    }
    None
}

/// Where the last `c` stands in `chars`.
pub fn find_last(chars: &Vec<char>, c: char) -> (r: Option<usize>)
    ensures
        (match last_index_of(chars@, c) {
            Some(i) => r == Some(i as usize) && 0 <= i < chars.len(),
            None => r is None,
        }),
{
    let mut i = chars.len();
    proof {
        assert(chars@.take(i as int) == chars@);
    }
    while i > 0
        invariant
            i <= chars.len(),
            last_index_of(chars@, c) == last_index_of(chars@.take(i as int), c),
        decreases i,
    {
        proof {
            assert(chars@.take(i as int).drop_last() == chars@.take(i - 1));
        }
        if chars[i - 1] == c {
            return Some(i - 1);
        }
        i -= 1;
    }
    None
}

/// How often `c` stands in `s`.
pub open spec fn count_of(s: Seq<char>, c: char) -> nat
    decreases s.len(),
{
    if s.len() == 0 {
        0
    } else if s.last() == c {
        count_of(s.drop_last(), c) + 1
    } else {
        count_of(s.drop_last(), c)
    }
}

/// How often `c` stands in `chars`.
pub fn count_char(chars: &Vec<char>, c: char) -> (r: usize)
    ensures
        r == count_of(chars@, c),
{
    let mut n: usize = 0;
    let mut i: usize = 0;
    while i < chars.len()
        invariant
            i <= chars.len(),
            n <= i,
            n == count_of(chars@.take(i as int), c),
        decreases chars.len() - i,
    {
        proof {
            assert(chars@.take(i + 1).drop_last() == chars@.take(i as int));
        }
        if chars[i] == c {
            n += 1;
        }
        i += 1;
    }
    proof {
        assert(chars@.take(chars.len() as int) == chars@);
    }
    n
}

/// How many characters of `s` from `from` on are whitespace, up to the
/// first that is not.
pub open spec fn space_run(s: Seq<char>, from: int) -> nat
    decreases s.len() - from,
{
    if 0 <= from < s.len() && is_whitespace(s[from]) {
        1 + space_run(s, from + 1)
    } else {
        0
    }
}

/// How many characters of `s` from `from` on are no whitespace, up to
/// the first that is.
pub open spec fn word_run(s: Seq<char>, from: int) -> nat
    decreases s.len() - from,
{
    if 0 <= from < s.len() && !is_whitespace(s[from]) {
        1 + word_run(s, from + 1)
    } else {
        0
    }
}

/// The words of `s` from `from` on: the stretches between whitespace.
pub open spec fn words_from(s: Seq<char>, from: int) -> Seq<Seq<char>>
    decreases s.len() - from,
{
    let start = from + space_run(s, from);
    let end = start + word_run(s, start);
    if from < 0 || start >= s.len() || end <= start || end > s.len() {
        Seq::empty()
    } else {
        seq![s.subrange(start, end)] + words_from(s, end)
    }
}

/// Runs of whitespace and of words end inside the text, a word that
/// starts is not empty, and what follows a run of whitespace is none.
pub proof fn lemma_runs_bounded(s: Seq<char>, from: int)
    requires
        0 <= from <= s.len(),
    ensures
        from + space_run(s, from) <= s.len(),
        from + word_run(s, from) <= s.len(),
        from < s.len() && !is_whitespace(s[from]) ==> word_run(s, from) > 0,
        from + space_run(s, from) < s.len() ==> !is_whitespace(s[from + space_run(s, from)]),
    decreases s.len() - from,
{
    if from < s.len() {
        lemma_runs_bounded(s, from + 1);
    }
}

/// The words of `chars`, in order.
pub fn split_words(chars: &Vec<char>) -> (r: Vec<Vec<char>>)
    ensures
        r@.len() == words_from(chars@, 0).len(),
        forall|i: int| 0 <= i < r@.len() ==> (#[trigger] r@[i])@ == words_from(chars@, 0)[i],
{
    let ghost s = chars@;
    let mut out: Vec<Vec<char>> = Vec::new();
    let ghost mut done: Seq<Seq<char>> = Seq::empty();
    let mut i: usize = 0;
    loop
        invariant_except_break
            done + words_from(s, i as int) == words_from(s, 0),
        invariant
            s == chars@,
            i <= chars.len(),
            out@.len() == done.len(),
            forall|k: int| 0 <= k < out@.len() ==> (#[trigger] out@[k])@ == done[k],
        ensures
            done == words_from(s, 0),
        decreases chars.len() - i,
    {
        let mut start = i;
        while start < chars.len() && char_is_whitespace(chars[start])
            invariant
                i <= start <= chars.len(),
                s == chars@,
                space_run(s, i as int) == (start - i) + space_run(s, start as int),
            decreases chars.len() - start,
        {
            start += 1;
        }
        let mut end = start;
        while end < chars.len() && !char_is_whitespace(chars[end])
            invariant
                start <= end <= chars.len(),
                s == chars@,
                word_run(s, start as int) == (end - start) + word_run(s, end as int),
            decreases chars.len() - end,
        {
            end += 1;
        }
        if start >= chars.len() {
            proof {
                assert(words_from(s, i as int) == Seq::<Seq<char>>::empty());
                assert(done + Seq::<Seq<char>>::empty() == done);
            }
            break ;
        }
        proof {
            lemma_runs_bounded(s, start as int);
            assert(words_from(s, i as int) == seq![s.subrange(start as int, end as int)] + words_from(s, end as int));
            assert(done.push(s.subrange(start as int, end as int)) + words_from(s, end as int) == done + words_from(
                s,
                i as int,
            ));
            done = done.push(s.subrange(start as int, end as int));
        }
        out.push(slice_of(chars, start, end));
        i = end;
    }
    out
}

/// Where `pattern` first stands in `s` at or behind `from`.
pub open spec fn first_match(s: Seq<char>, pattern: Seq<char>, from: int) -> Option<int>
    decreases s.len() - from,
{
    if from < 0 || from + pattern.len() > s.len() {
        None
    } else if has_at(s, pattern, from) {
        Some(from)
    } else if from >= s.len() {
        None
    } else {
        first_match(s, pattern, from + 1)
    }
}

/// A first match lies at or behind where the search started, inside the
/// text, and the pattern stands there.
pub proof fn lemma_first_match(s: Seq<char>, pattern: Seq<char>, from: int)
    ensures
        first_match(s, pattern, from) matches Some(i) ==> from <= i && i + pattern.len() <= s.len() && has_at(
            s,
            pattern,
            i,
        ),
    decreases s.len() - from,
{
    if from < 0 || from + pattern.len() > s.len() {
    } else if has_at(s, pattern, from) {
    } else if from >= s.len() {
    } else {
        lemma_first_match(s, pattern, from + 1);
    }
}

/// The pieces of `s` from `from` on between the places where `sep`
/// stands, found from left to right and not overlapping. `sep` must not
/// be empty.
pub open spec fn split_on(s: Seq<char>, sep: Seq<char>, from: int) -> Seq<Seq<char>>
    decreases s.len() - from,
{
    if sep.len() == 0 || from < 0 || from > s.len() {
        Seq::empty()
    } else {
        match first_match(s, sep, from) {
            Some(i) => {
                proof {
                    lemma_first_match(s, sep, from);
                }
                seq![s.subrange(from, i)] + split_on(s, sep, i + sep.len())
            },
            None => seq![s.subrange(from, s.len() as int)],
        }
    }
}

/// Where `pattern` first stands in `chars` at or behind `from`.
pub fn find_match(chars: &Vec<char>, pattern: &Vec<char>, from: usize) -> (r: Option<usize>)
    requires
        from <= chars.len(),
    ensures
        (match first_match(chars@, pattern@, from as int) {
            Some(i) => r == Some(i as usize) && from <= i && i + pattern.len() <= chars.len(),
            None => r is None,
        }),
{
    let mut i: usize = from;
    while i <= chars.len()
        invariant
            from <= i <= chars.len() + 1,
            first_match(chars@, pattern@, from as int) == first_match(chars@, pattern@, i as int),
        decreases chars.len() + 1 - i,
    {
        if pattern.len() > chars.len() - i {
            return None;
        }
        if matches_at(chars, pattern, i) {
            return Some(i);
        }
        if i == chars.len() {
            return None;
        }
        i += 1;
    }
    None
}

/// The pieces of `chars` between the places where `sep` stands.
pub fn split_at_each(chars: &Vec<char>, sep: &Vec<char>) -> (r: Vec<Vec<char>>)
    requires
        sep.len() > 0,
    ensures
        r@.len() == split_on(chars@, sep@, 0).len(),
        forall|i: int| 0 <= i < r@.len() ==> (#[trigger] r@[i])@ == split_on(chars@, sep@, 0)[i],
{
    let ghost s = chars@;
    let mut out: Vec<Vec<char>> = Vec::new();
    let ghost mut done: Seq<Seq<char>> = Seq::empty();
    let mut from: usize = 0;
    loop
        invariant_except_break
            done + split_on(s, sep@, from as int) == split_on(s, sep@, 0),
        invariant
            s == chars@,
            sep.len() > 0,
            from <= chars.len(),
            out@.len() == done.len(),
            forall|k: int| 0 <= k < out@.len() ==> (#[trigger] out@[k])@ == done[k],
        ensures
            done == split_on(s, sep@, 0),
            out@.len() == done.len(),
            forall|k: int| 0 <= k < out@.len() ==> (#[trigger] out@[k])@ == done[k],
        decreases chars.len() - from,
    {
        match find_match(chars, sep, from) {
            Some(i) => {
                out.push(slice_of(chars, from, i));
                proof {
                    let piece = s.subrange(from as int, i as int);
                    assert(split_on(s, sep@, from as int) == seq![piece] + split_on(s, sep@, i + sep.len()));
                    assert(done.push(piece) + split_on(s, sep@, i + sep.len()) == done + split_on(
                        s,
                        sep@,
                        from as int,
                    ));
                    done = done.push(piece);
                }
                from = i + sep.len();
            },
            None => {
                out.push(slice_of(chars, from, chars.len()));
                proof {
                    let piece = s.subrange(from as int, s.len() as int);
                    assert(split_on(s, sep@, from as int) == seq![piece]);
                    assert(done.push(piece) == done + seq![piece]);
                    done = done.push(piece);
                }
                break ;
            },
        }
    }
    out
}

} // verus!
