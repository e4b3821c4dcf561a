use typebook::author::Author;
use typebook::css::{contains_str, parse_usize};
use typebook::directory::is_epub_path;
use typebook::flatten::push_text;
use typebook::text::{
    chars_of, find_match, replace_all, replace_unicode_multichars, split_at_each, split_last, split_words,
    string_of, trim_end_in_place, trimmed,
};

fn strings(alphabet: &[char], max_len: usize) -> Vec<String> {
    let mut all = vec![String::new()];
    let mut last = vec![String::new()];
    for _ in 0..max_len {
        let mut next = Vec::new();
        for s in &last {
            for c in alphabet {
                let mut t = s.clone();
                t.push(*c);
                next.push(t);
            }
        }
        all.extend(next.iter().cloned());
        last = next;
    }
    all
}

fn chars(s: &str) -> Vec<char> {
    s.chars().collect()
}

fn text(v: Vec<char>) -> String {
    v.into_iter().collect()
}

#[test]
fn replacing_agrees_with_std() {
    for s in strings(&['a', '.', ' '], 6) {
        for (from, to) in [(". ", " "), (".", " "), ("aa", "b"), ("a.a", "")] {
            assert_eq!(text(replace_all(&chars(&s), &chars(from), &chars(to))), s.replace(from, to), "{s:?}");
        }
    }
}

#[test]
fn splitting_agrees_with_std() {
    for s in strings(&['a', '&', ' '], 6) {
        for sep in ["&", " a ", "&&"] {
            let got: Vec<String> = split_at_each(&chars(&s), &chars(sep)).into_iter().map(text).collect();
            let want: Vec<String> = s.split(sep).map(str::to_owned).collect();
            assert_eq!(got, want, "{s:?} at {sep:?}");
        }
    }
}

#[test]
fn trimming_and_words_agree_with_std() {
    for s in strings(&['a', ' ', '\n', '\u{a0}', '\u{3000}'], 5) {
        assert_eq!(text(trimmed(&chars(&s))), s.trim(), "{s:?}");
        let got: Vec<String> = split_words(&chars(&s)).into_iter().map(text).collect();
        let want: Vec<String> = s.split_whitespace().map(str::to_owned).collect();
        assert_eq!(got, want, "{s:?}");
        let mut t = s.clone();
        let removed = trim_end_in_place(&mut t);
        assert_eq!(t, s.trim_end(), "{s:?}");
        assert_eq!(removed, s.chars().count() - s.trim_end().chars().count());
    }
}

#[test]
fn searching_agrees_with_std() {
    for s in strings(&['a', 'b', '/'], 6) {
        for pattern in ["", "a", "ab", "b/a"] {
            assert_eq!(find_match(&chars(&s), &chars(pattern), 0), s.find(pattern), "{s:?}");
            assert_eq!(contains_str(&s, pattern), s.contains(pattern), "{s:?}");
        }
        let want = s.rsplit_once('/').map(|(a, b)| (a.to_owned(), b.to_owned()));
        assert_eq!(split_last(&s, '/'), want, "{s:?}");
    }
}

#[test]
fn numbers_agree_with_std() {
    for s in strings(&['0', '1', '9', '+', '-', ' '], 5) {
        assert_eq!(parse_usize(&s), s.parse::<usize>().ok(), "{s:?}");
    }
}

#[test]
fn extensions_agree_with_std() {
    for s in strings(&['a', '.', '/'], 6) {
        let mut path = s.clone();
        path.push_str("epub");
        for p in [s.clone(), path] {
            let want = std::path::Path::new(&p).extension().map(|e| e == "epub").unwrap_or(false);
            // a name that ends in a slash names a directory: only the text of the path is judged here
            if p.ends_with('/') || p.ends_with("/.") || p == "." {
                continue;
            }
            assert_eq!(is_epub_path(&p), want, "{p:?}");
        }
    }
}

#[test]
fn multichar_replacement_agrees_with_std() {
    for s in strings(&['a', '\u{2014}', '\u{2026}', '-'], 5) {
        let want = s.replace('\u{2014}', "--").replace('\u{2026}', "...");
        assert_eq!(replace_unicode_multichars(&s), want, "{s:?}");
    }
}

#[test]
fn characters_round_trip() {
    for s in strings(&['a', '\u{e9}', '\u{2014}', '\u{1F600}'], 4) {
        let v = chars_of(&s);
        assert_eq!(v, chars(&s));
        assert_eq!(string_of(&v, 0, v.len()), s);
    }
}

fn pushed_by_splitting(buf: &str, s: &str) -> String {
    // the text of a text node, word by word
    let mut text = buf.to_owned();
    if s.is_empty() {
        return text;
    }
    let start = text.len();
    if s.chars().next().is_some_and(|c| c.is_ascii_whitespace())
        && text.chars().last().is_some_and(|c| !c.is_ascii_whitespace())
    {
        text.push(' ');
    }
    for word in s.split_ascii_whitespace() {
        text.push_str(&word.replace('\u{2014}', "--").replace('\u{2026}', "..."));
        text.push(' ');
    }
    if text.len() > start && s.chars().last().is_some_and(|c| !c.is_ascii_whitespace()) {
        text.pop();
    }
    text
}

#[test]
fn text_nodes_are_added_as_if_word_by_word() {
    let nodes = strings(&['a', ' ', '\n', '\u{2014}', '\u{a0}'], 5);
    for buf in ["", "x", "x ", "x\n", "\u{a0}"] {
        for s in &nodes {
            let mut got = buf.to_owned();
            push_text(&mut got, s);
            assert_eq!(got, pushed_by_splitting(buf, s), "{buf:?} + {s:?}");
        }
    }
}

fn capital(s: &str) -> String {
    let mut out = String::new();
    for word in s.split_whitespace() {
        let mut letters = word.chars();
        if let Some(first) = letters.next() {
            out.extend(first.to_uppercase());
        }
        if word.len() == 1 {
            out.push_str(". ");
        } else {
            out.extend(letters);
        }
    }
    out.trim_end().to_owned()
}

fn name_by_std(raw: &str) -> Option<(String, Option<String>, String)> {
    let raw = raw.trim();
    if raw.is_empty() || raw == "Unknown" {
        return None;
    }
    let mut parted = String::new();
    if raw.chars().any(char::is_lowercase) {
        let all: Vec<char> = raw.chars().collect();
        for (i, c) in all.iter().enumerate() {
            if i > 0 && all[i - 1].is_uppercase() && c.is_uppercase() {
                parted.push(' ');
            }
            parted.push(*c);
        }
    } else {
        parted.push_str(raw);
    }
    let name = parted.to_lowercase().replace(". ", " ").replace('.', " ");
    let name = name.trim();
    let commas = name.matches(',').count();
    let (given, surname) = if commas == 0 {
        name.rsplit_once(' ').unwrap_or((name, ""))
    } else {
        let (a, b) = name.split_once(',').unwrap();
        if commas % 2 == 1 {
            (b, a)
        } else {
            (a, b)
        }
    };
    let mut given = given.trim();
    let mut surname = surname.trim();
    let middles = if let Some((m, last)) = surname.rsplit_once(' ') {
        surname = last.trim_start();
        Some(m)
    } else if let Some((first, m)) = given.split_once(' ') {
        given = first.trim_end();
        Some(m)
    } else {
        None
    };
    Some((
        capital(given.trim()),
        middles.map(|m| capital(m.trim())),
        capital(surname.trim_matches(',').trim()),
    ))
}

#[test]
fn names_are_taken_apart_as_std_would() {
    let mut names = strings(&['a', 'B', '.', ',', ' '], 6);
    for extra in ["J.R.R. Tolkien", "TOLKIEN, J. R. R.", "de la Mare, Walter", "Éric-Emmanuel Schmitt", "ǅ x", "a,b,c"] {
        names.push(extra.to_owned());
    }
    for raw in names {
        let got = Author::parse(&raw)
            .map(|a| (a.first().to_owned(), a.middles().map(str::to_owned), a.surname().to_owned()));
        assert_eq!(got, name_by_std(&raw), "{raw:?}");
    }
}
