//! The name of an author, taken apart for display.

use vstd::prelude::*;
use vstd::string::*;
use crate::text::{
    byte_len, chars_of, count_char, count_of, find_first, find_last, first_index_of, last_index_of,
    lemma_first_index_of, lemma_last_index_of, lowercase, lowered, replace_all, replaced, slice_of,
    split_words, string_of, trim, trim_end, trim_end_at, trim_start, trim_start_at, trimmed, utf8_len,
    words_from,
};
use crate::xml::{opt_view, str_eq};

verus! {

/// Whether `char::is_lowercase` holds of `c`.
pub uninterp spec fn is_lower(c: char) -> bool;

/// Whether `char::is_uppercase` holds of `c`.
pub uninterp spec fn is_upper(c: char) -> bool;

/// The characters that `char::to_uppercase` gives for `c`.
pub uninterp spec fn upper_of(c: char) -> Seq<char>;

/// `char::is_lowercase`: the Unicode property `Lowercase`.
#[verifier::external_body]
fn char_is_lowercase(c: char) -> (r: bool)
    ensures
        r == is_lower(c),
{
    c.is_lowercase()
}

/// `char::is_uppercase`: the Unicode property `Uppercase`.
#[verifier::external_body]
fn char_is_uppercase(c: char) -> (r: bool)
    ensures
        r == is_upper(c),
{
    c.is_uppercase()
}

/// `char::to_uppercase`: the uppercase form of one character, which may
/// be several characters.
#[verifier::external_body]
fn char_to_uppercase(c: char) -> (r: Vec<char>)
    ensures
        r@ == upper_of(c),
{
    c.to_uppercase().collect()
}

/// An author's name in its parts.
#[derive(Debug)]
pub struct Author {
    first: String,
    middles: Option<String>,
    surname: String,
}

/// An author's name as plain values.
pub struct AuthorView {
    pub first: Seq<char>,
    pub middles: Option<Seq<char>>,
    pub surname: Seq<char>,
}

impl View for Author {
    type V = AuthorView;

    closed spec fn view(&self) -> AuthorView {
        AuthorView { first: self.first@, middles: opt_view(self.middles), surname: self.surname@ }
    }
}

/// Some character of `s` is lowercase.
pub open spec fn has_lower(s: Seq<char>) -> bool {
    exists|i: int| 0 <= i < s.len() && is_lower(#[trigger] s[i])
}

/// `s` with a space between any two uppercase characters that touch.
pub open spec fn spaced_caps(s: Seq<char>) -> Seq<char>
    decreases s.len(),
{
    if s.len() == 0 {
        s
    } else if s.len() >= 2 && is_upper(s[s.len() - 2]) && is_upper(s.last()) {
        spaced_caps(s.drop_last()).push(' ').push(s.last())
    } else {
        spaced_caps(s.drop_last()).push(s.last())
    }
}

/// The name in lowercase with its full stops turned into spaces, ready
/// to be taken apart: initials that touch are parted first, unless the
/// whole name is in capitals.
pub open spec fn normal_name(raw: Seq<char>) -> Seq<char> {
    let parted = if has_lower(raw) {
        spaced_caps(raw)
    } else {
        raw
    };
    trim(replaced(replaced(lowered(parted), seq!['.', ' '], seq![' ']), seq!['.'], seq![' ']))
}

/// The given names and the surname of a normalised name, before either
/// is taken apart further. Without a comma the last word is the surname.
/// With commas the name is cut at the first: an odd number of commas
/// puts the surname first, an even number the given names.
pub open spec fn name_halves(name: Seq<char>) -> (Seq<char>, Seq<char>) {
    if count_of(name, ',') == 0 {
        match last_index_of(name, ' ') {
            Some(i) => (name.take(i), name.skip(i + 1)),
            None => (name, Seq::empty()),
        }
    } else {
        match first_index_of(name, ',') {
            Some(i) => if count_of(name, ',') % 2 == 1 {
                (name.skip(i + 1), name.take(i))
            } else {
                (name.take(i), name.skip(i + 1))
            },
            None => (name, Seq::empty()),
        }
    }
}

/// The three parts of a name, in lowercase: the first name, the middle
/// names if there are any, and the surname. Middle names are what stands
/// before the last word of the surname, or else what follows the first
/// word of the given names.
pub open spec fn name_parts(name: Seq<char>) -> (Seq<char>, Option<Seq<char>>, Seq<char>) {
    let given = trim(name_halves(name).0);
    let surname = trim(name_halves(name).1);
    match last_index_of(surname, ' ') {
        Some(i) => (given, Some(surname.take(i)), trim_start(surname.skip(i + 1))),
        None => match first_index_of(given, ' ') {
            Some(i) => (trim_end(given.take(i)), Some(given.skip(i + 1)), surname),
            None => (given, None, surname),
        },
    }
}

/// `s` without the commas at both ends.
pub open spec fn trim_commas(s: Seq<char>) -> Seq<char> {
    strip_commas_end(strip_commas_start(s))
}

/// `s` without the commas at its start.
pub open spec fn strip_commas_start(s: Seq<char>) -> Seq<char>
    decreases s.len(),
{
    if s.len() > 0 && s[0] == ',' {
        strip_commas_start(s.drop_first())
    } else {
        s
    }
}

/// `s` without the commas at its end.
pub open spec fn strip_commas_end(s: Seq<char>) -> Seq<char>
    decreases s.len(),
{
    if s.len() > 0 && s.last() == ',' {
        strip_commas_end(s.drop_last())
    } else {
        s
    }
}

/// A word with its first character in uppercase. A word of one byte is
/// an initial and gets a full stop and a space.
pub open spec fn capital_word(word: Seq<char>) -> Seq<char> {
    if word.len() == 0 {
        word
    } else if byte_len(word) == 1 {
        upper_of(word[0]) + seq!['.', ' ']
    } else {
        upper_of(word[0]) + word.drop_first()
    }
}

/// The first `n` of `words`, each capitalised, in a row.
pub open spec fn capital_words(words: Seq<Seq<char>>, n: int) -> Seq<char>
    decreases n,
{
    if n <= 0 || n > words.len() {
        Seq::empty()
    } else {
        capital_words(words, n - 1) + capital_word(words[n - 1])
    }
}

/// The words of `s`, each capitalised, without whitespace at the end.
pub open spec fn capitalised(s: Seq<char>) -> Seq<char> {
    trim_end(capital_words(words_from(s, 0), words_from(s, 0).len() as int))
}

/// The author that the name `raw` stands for, or none where the name is
/// empty or `Unknown`.
pub open spec fn author_of(raw: Seq<char>) -> Option<AuthorView> {
    let name = trim(raw);
    if name.len() == 0 || name == "Unknown"@ {
        None
    } else {
        let parts = name_parts(normal_name(name));
        Some(
            AuthorView {
                first: capitalised(trim(parts.0)),
                middles: match parts.1 {
                    Some(m) => Some(capitalised(trim(m))),
                    None => None,
                },
                surname: capitalised(trim(trim_commas(parts.2))),
            },
        )
    }
}

/// What a name reads as: its parts with single spaces between them.
pub open spec fn display_of(a: AuthorView) -> Seq<char> {
    match a.middles {
        Some(m) => a.first + seq![' '] + m + seq![' '] + a.surname,
        None => a.first + seq![' '] + a.surname,
    }
}

/// Whether some character of `chars` is lowercase.
fn any_lowercase(chars: &Vec<char>) -> (r: bool)
    ensures
        r == has_lower(chars@),
{
    let mut i: usize = 0;
    while i < chars.len()
        invariant
            i <= chars.len(),
            forall|k: int| 0 <= k < i ==> !is_lower(#[trigger] chars@[k]),
        decreases chars.len() - i,
    {
        if char_is_lowercase(chars[i]) {
            return true;
        }
        i += 1;
    }
    false
}

/// `chars` with a space between any two uppercase characters that
/// touch.
fn space_caps(chars: &Vec<char>) -> (r: Vec<char>)
    ensures
        r@ == spaced_caps(chars@),
{
    let mut out: Vec<char> = Vec::new();
    let mut i: usize = 0;
    while i < chars.len()
        invariant
            i <= chars.len(),
            out@ == spaced_caps(chars@.take(i as int)),
        decreases chars.len() - i,
    {
        proof {
            assert(chars@.take(i + 1).drop_last() == chars@.take(i as int));
            if i > 0 {
                assert(chars@.take(i + 1)[i - 1] == chars@[i - 1]);
            }
        }
        if i > 0 && char_is_uppercase(chars[i - 1]) && char_is_uppercase(chars[i]) {
            out.push(' ');
        }
        out.push(chars[i]);
        i += 1;
    }
    proof {
        assert(chars@.take(chars.len() as int) == chars@);
    }
    out
}

/// The name in lowercase with its full stops turned into spaces.
fn normalise(raw: &Vec<char>) -> (r: Vec<char>)
    ensures
        r@ == normal_name(raw@),
{
    let parted = if any_lowercase(raw) {
        space_caps(raw)
    } else {
        slice_of(raw, 0, raw.len())
    };
    proof {
        assert(raw@.subrange(0, raw.len() as int) == raw@);
    }
    let text = string_of(&parted, 0, parted.len());
    proof {
        assert(parted@.subrange(0, parted.len() as int) == parted@);
    }
    let lower = chars_of(lowercase(text.as_str()).as_str());
    let stop_space: Vec<char> = vec!['.', ' '];
    let stop: Vec<char> = vec!['.'];
    let space: Vec<char> = vec![' '];
    proof {
        assert(stop_space@ == seq!['.', ' ']);
        assert(stop@ == seq!['.']);
        assert(space@ == seq![' ']);
    }
    let once = replace_all(&lower, &stop_space, &space);
    let twice = replace_all(&once, &stop, &space);
    trimmed(&twice)
}

/// The given names and the surname of a normalised name.
fn halves(name: &Vec<char>) -> (r: (Vec<char>, Vec<char>))
    ensures
        (r.0@, r.1@) == name_halves(name@),
{
    let commas = count_char(name, ',');
    proof {
        lemma_last_index_of(name@, ' ');
        lemma_first_index_of(name@, ',');
    }
    if commas == 0 {
        match find_last(name, ' ') {
            Some(i) => (slice_of(name, 0, i), slice_of(name, i + 1, name.len())),
            None => {
                proof {
                    assert(name@.subrange(0, name.len() as int) == name@);
                }
                (slice_of(name, 0, name.len()), Vec::new())
            },
        }
    } else {
        match find_first(name, ',') {
            Some(i) => {
                let before = slice_of(name, 0, i);
                let after = slice_of(name, i + 1, name.len());
                if commas % 2 == 1 {
                    (after, before)
                } else {
                    (before, after)
                }
            },
            None => {
                proof {
                    assert(name@.subrange(0, name.len() as int) == name@);
                }
                (slice_of(name, 0, name.len()), Vec::new())
            },
        }
    }
}

/// The three parts of a normalised name.
fn parts(name: &Vec<char>) -> (r: (Vec<char>, Option<Vec<char>>, Vec<char>))
    ensures
        r.0@ == name_parts(name@).0,
        r.2@ == name_parts(name@).2,
        (match name_parts(name@).1 {
            Some(m) => r.1 matches Some(v) && v@ == m,
            None => r.1 is None,
        }),
{
    let (given_raw, surname_raw) = halves(name);
    let given = trimmed(&given_raw);
    let surname = trimmed(&surname_raw);
    proof {
        lemma_last_index_of(surname@, ' ');
        lemma_first_index_of(given@, ' ');
    }
    match find_last(&surname, ' ') {
        Some(i) => {
            let middles = slice_of(&surname, 0, i);
            let rest = slice_of(&surname, i + 1, surname.len());
            let from = trim_start_at(&rest);
            let last_word = slice_of(&rest, from, rest.len());
            proof {
                assert(rest@.subrange(from as int, rest.len() as int) == rest@.skip(from as int));
            }
            (given, Some(middles), last_word)
        },
        None => match find_first(&given, ' ') {
            Some(i) => {
                let first = slice_of(&given, 0, i);
                let middles = slice_of(&given, i + 1, given.len());
                let to = trim_end_at(&first, 0);
                let first_word = slice_of(&first, 0, to);
                proof {
                    assert(first@.skip(0) == first@);
                }
                (first_word, Some(middles), surname)
            },
            None => (given, None, surname),
        },
    }
}

/// `chars` without the commas at both ends.
fn strip_commas(chars: &Vec<char>) -> (r: Vec<char>)
    ensures
        r@ == trim_commas(chars@),
{
    let mut from: usize = 0;
    proof {
        assert(chars@.skip(0) == chars@);
    }
    while from < chars.len() && chars[from] == ','
        invariant
            from <= chars.len(),
            strip_commas_start(chars@) == strip_commas_start(chars@.skip(from as int)),
        decreases chars.len() - from,
    {
        proof {
            assert(chars@.skip(from as int).drop_first() == chars@.skip(from + 1));
        }
        from += 1;
    }
    let mut to: usize = chars.len();
    proof {
        assert(chars@.subrange(from as int, to as int) == chars@.skip(from as int));
    }
    while to > from && chars[to - 1] == ','
        invariant
            from <= to <= chars.len(),
            strip_commas_end(chars@.skip(from as int)) == strip_commas_end(chars@.subrange(from as int, to as int)),
        decreases to,
    {
        proof {
            assert(chars@.subrange(from as int, to as int).drop_last() == chars@.subrange(from as int, to - 1));
        }
        to -= 1;
    }
    slice_of(chars, from, to)
}

/// Appends all of `more` to `out`.
fn push_all(out: &mut Vec<char>, more: &Vec<char>, from: usize)
    requires
        from <= more.len(),
    ensures
        final(out)@ == old(out)@ + more@.skip(from as int),
{
    let mut i: usize = from;
    proof {
        assert(more@.subrange(from as int, from as int) == Seq::<char>::empty());
        assert(out@ + Seq::<char>::empty() == out@);
    }
    while i < more.len()
        invariant
            from <= i <= more.len(),
            out@ == old(out)@ + more@.subrange(from as int, i as int),
        decreases more.len() - i,
    {
        out.push(more[i]);
        i += 1;
        proof {
            assert(more@.subrange(from as int, i as int) == more@.subrange(from as int, i - 1).push(more@[i - 1]));
        }
    }
    proof {
        assert(more@.subrange(from as int, more.len() as int) == more@.skip(from as int));
    }
}

/// The words of `chars`, each capitalised, without whitespace at the
/// end.
fn capitalise(chars: &Vec<char>) -> (r: String)
    ensures
        r@ == capitalised(chars@),
{
    let words = split_words(chars);
    let ghost all = words_from(chars@, 0);
    let mut out: Vec<char> = Vec::new();
    let mut i: usize = 0;
    while i < words.len()
        invariant
            i <= words.len(),
            words@.len() == all.len(),
            forall|k: int| 0 <= k < words@.len() ==> (#[trigger] words@[k])@ == all[k],
            out@ == capital_words(all, i as int),
        decreases words.len() - i,
    {
        let word = &words[i];
        let ghost before = out@;
        if word.len() > 0 {
            let upper = char_to_uppercase(word[0]);
            push_all(&mut out, &upper, 0);
            proof {
                assert(upper@.skip(0) == upper@);
                crate::text::lemma_byte_len_bounds(word@);
                assert(word@.drop_first() == word@.skip(1));
                if word.len() == 1 {
                    assert(word@ == seq![word@[0]]);
                    assert(word@ == Seq::<char>::empty().push(word@[0]));
                    crate::text::lemma_byte_len_push(Seq::<char>::empty(), word@[0]);
                }
            }
            if word.len() == 1 && utf8_len(word[0]) == 1 {
                out.push('.');
                out.push(' ');
                proof {
                    assert(out@ == before + (upper@ + seq!['.', ' ']));
                }
            } else {
                push_all(&mut out, word, 1);
                proof {
                    assert(out@ == before + (upper@ + word@.drop_first()));
                }
            }
        } else {
            proof {
                assert(out@ + Seq::<char>::empty() == out@);
            }
        }
        i += 1;
    }
    let to = trim_end_at(&out, 0);
    proof {
        assert(out@.skip(0) == out@);
    }
    string_of(&out, 0, to)
}

impl Author {
    /// Takes the name `raw` apart. An empty name and the name `Unknown`
    /// stand for no author.
    pub fn parse(raw: &str) -> (r: Option<Author>)
        ensures
            (match author_of(raw@) {
                Some(a) => r matches Some(author) && author@ == a,
                None => r is None,
            }),
    {
        let name = trimmed(&chars_of(raw));
        if name.len() == 0 {
            return None;
        }
        let text = string_of(&name, 0, name.len());
        proof {
            assert(name@.subrange(0, name.len() as int) == name@);
        }
        if str_eq(text.as_str(), "Unknown") {
            return None;
        }
        let normal = normalise(&name);
        let (given, middles, surname) = parts(&normal);
        let first = capitalise(&trimmed(&given));
        let middles = match middles {
            Some(m) => Some(capitalise(&trimmed(&m))),
            None => None,
        };
        let surname = capitalise(&trimmed(&strip_commas(&surname)));
        Some(Author { first, middles, surname })
    }

    /// The first name.
    pub fn first(&self) -> (r: &str)
        ensures
            r@ == self@.first,
    {
        self.first.as_str()
    }

    /// The middle names, if there are any.
    pub fn middles(&self) -> (r: Option<&str>)
        ensures
            r is Some == self@.middles is Some,
            r matches Some(m) ==> m@ == self@.middles->0,
    {
        match &self.middles {
            Some(m) => Some(m.as_str()),
            None => None,
        }
    }

    /// The surname.
    pub fn surname(&self) -> (r: &str)
        ensures
            r@ == self@.surname,
    {
        self.surname.as_str()
    }

    /// The name as it reads: its parts with single spaces between them.
    pub fn display(&self) -> (r: String)
        ensures
            r@ == display_of(self@),
    {
        let mut out = self.first.clone();
        out.push(' ');
        match &self.middles {
            Some(m) => {
                out.append(m.as_str());
                out.push(' ');
            },
            None => {},
        }
        out.append(self.surname.as_str());
        out
    }
}

} // verus!
