use typebook::backend::Backend;
use typebook::content::Content;
use typebook::position::Len;
use typebook::style::{Style, Styling};

fn plain(text: &str) -> Content {
    Content::Paragraph(text.to_owned(), Styling::builder().build())
}

fn session(text: &str) -> Backend {
    Backend::new(&vec![plain(text)])
}

fn type_all(b: &mut Backend, keys: &str) {
    for c in keys.chars() {
        b.push(c);
    }
}

#[test]
fn new_session_starts_at_the_origin() {
    let b = session("abc");
    assert_eq!(b.text(), "abc");
    assert_eq!(b.cursor(), Len::new(0, 0));
    assert_eq!(b.last_cursor_position(), Len::new(0, 0));
    assert!(b.errors().is_empty());
    assert!(b.backspaced_errors().is_empty());
    assert!(b.typed().is_empty());
}

#[test]
fn push_advances_by_the_expected_character() {
    let mut b = session("\u{e9}a");
    b.push('x');
    assert_eq!(b.cursor(), Len::new(2, 1));
    assert_eq!(b.last_cursor_position(), Len::new(0, 0));
    assert_eq!(b.errors(), &[Len::new(0, 0)]);
    assert_eq!(b.typed(), &['x']);
    b.push('a');
    assert_eq!(b.cursor(), Len::new(3, 2));
    assert_eq!(b.last_cursor_position(), Len::new(2, 1));
    assert_eq!(b.errors(), &[Len::new(0, 0)]);
}

#[test]
fn push_at_the_end_of_the_text_does_nothing() {
    let mut b = session("ab");
    type_all(&mut b, "ab");
    let (cursor, prev) = (b.cursor(), b.last_cursor_position());
    b.push('c');
    assert_eq!(b.cursor(), cursor);
    assert_eq!(b.last_cursor_position(), prev);
    assert_eq!(b.typed(), &['a', 'b']);
    assert!(b.errors().is_empty());
}

#[test]
fn push_on_an_empty_text_does_nothing() {
    let mut b = Backend::new(&vec![]);
    b.push('a');
    assert_eq!(b.text(), "");
    assert_eq!(b.cursor(), Len::new(0, 0));
    assert!(b.typed().is_empty());
}

#[test]
fn typed_count_follows_the_cursor() {
    let mut b = session("one two\u{2014}three");
    let keys = ['o', 'x', 'e', ' ', 't', 'w'];
    for (i, c) in keys.iter().enumerate() {
        b.push(*c);
        assert_eq!(b.typed().len(), b.cursor().chars);
        assert_eq!(b.cursor().chars, i + 1);
    }
    b.pop();
    assert_eq!(b.typed().len(), b.cursor().chars);
    b.delete_word_backwards();
    assert_eq!(b.typed().len(), b.cursor().chars);
    b.delete_word_backwards();
    assert_eq!(b.typed().len(), b.cursor().chars);
    assert_eq!(b.cursor(), Len::new(0, 0));
}

#[test]
fn pop_with_nothing_typed_does_nothing() {
    let mut b = session("abc");
    b.pop();
    assert_eq!(b.cursor(), Len::new(0, 0));
    assert_eq!(b.last_cursor_position(), Len::new(0, 0));
    assert!(b.typed().is_empty());
}

#[test]
fn pop_moves_back_by_the_character_before_the_cursor() {
    let mut b = session("a\u{2019}b");
    type_all(&mut b, "a'");
    assert_eq!(b.cursor(), Len::new(4, 2));
    b.pop();
    assert_eq!(b.cursor(), Len::new(1, 1));
    assert_eq!(b.last_cursor_position(), Len::new(4, 2));
    assert_eq!(b.typed(), &['a']);
}

#[test]
fn advance_then_backspace_restores_the_session() {
    let mut b = session("hello");
    type_all(&mut b, "hx");
    let cursor = b.cursor();
    let typed = b.typed().to_vec();
    let errors = b.errors().to_vec();
    b.clear_per_update_data();
    b.push('l');
    b.pop();
    assert_eq!(b.cursor(), cursor);
    assert_eq!(b.typed(), typed.as_slice());
    assert_eq!(b.errors(), errors.as_slice());
    assert!(b.backspaced_errors().is_empty());
}

#[test]
fn backspace_moves_a_fresh_error_to_the_deleted_ones() {
    let mut b = session("hello");
    type_all(&mut b, "he");
    b.push('x');
    assert_eq!(b.errors(), &[Len::new(2, 2)]);
    b.pop();
    assert!(b.errors().is_empty());
    assert_eq!(b.backspaced_errors(), &[Len::new(2, 2)]);
    assert_eq!(b.cursor(), Len::new(2, 2));
    b.clear_per_update_data();
    assert!(b.backspaced_errors().is_empty());
    assert_eq!(b.cursor(), Len::new(2, 2));
}

#[test]
fn backspace_keeps_errors_before_the_cursor() {
    let mut b = session("abcdef");
    type_all(&mut b, "xbyd");
    assert_eq!(b.errors(), &[Len::new(0, 0), Len::new(2, 2)]);
    b.pop();
    assert_eq!(b.errors(), &[Len::new(0, 0), Len::new(2, 2)]);
    assert!(b.backspaced_errors().is_empty());
    b.pop();
    assert_eq!(b.errors(), &[Len::new(0, 0)]);
    assert_eq!(b.backspaced_errors(), &[Len::new(2, 2)]);
    b.pop();
    b.pop();
    assert!(b.errors().is_empty());
    assert_eq!(b.backspaced_errors(), &[Len::new(2, 2), Len::new(0, 0)]);
}

#[test]
fn delete_word_takes_trailing_space_and_the_word_before_it() {
    let mut b = session("hello world and more");
    type_all(&mut b, "hello world ");
    assert_eq!(b.cursor(), Len::new(12, 12));
    b.delete_word_backwards();
    assert_eq!(b.typed().iter().collect::<String>(), "hello ");
    assert_eq!(b.cursor(), Len::new(6, 6));
    assert_eq!(b.last_cursor_position(), Len::new(12, 12));
}

#[test]
fn delete_word_without_trailing_space_takes_the_word() {
    let mut b = session("hello world and more");
    type_all(&mut b, "hello wor");
    b.delete_word_backwards();
    assert_eq!(b.typed().iter().collect::<String>(), "hello ");
    b.delete_word_backwards();
    assert!(b.typed().is_empty());
    assert_eq!(b.cursor(), Len::new(0, 0));
}

#[test]
fn delete_word_with_nothing_typed_does_nothing() {
    let mut b = session("hello");
    type_all(&mut b, "h");
    b.pop();
    let prev = b.last_cursor_position();
    b.delete_word_backwards();
    assert_eq!(b.cursor(), Len::new(0, 0));
    assert_eq!(b.last_cursor_position(), prev);
}

#[test]
fn delete_word_moves_the_errors_of_the_word() {
    let mut b = session("abc def ghi");
    type_all(&mut b, "xbc dxf ");
    assert_eq!(b.errors(), &[Len::new(0, 0), Len::new(5, 5)]);
    b.delete_word_backwards();
    assert_eq!(b.errors(), &[Len::new(0, 0)]);
    assert_eq!(b.backspaced_errors(), &[Len::new(5, 5)]);
    assert_eq!(b.cursor(), Len::new(4, 4));
}

#[test]
fn delete_word_counts_text_characters_not_typed_bytes() {
    let mut b = session("\u{e9}t\u{e9} ici");
    type_all(&mut b, "ete ");
    assert_eq!(b.cursor(), Len::new(6, 4));
    b.delete_word_backwards();
    assert_eq!(b.cursor(), Len::new(0, 0));
}

#[test]
fn ascii_apostrophe_matches_the_curly_one() {
    let mut b = session("It\u{2019}s a test");
    type_all(&mut b, "It's a test");
    assert!(b.errors().is_empty());
    assert_eq!(b.cursor(), Len::new(13, 11));
}

#[test]
fn hyphens_match_a_replaced_em_dash() {
    let text = typebook::text::replace_unicode_multichars("Wait\u{2014}what?");
    let mut b = session(&text);
    assert_eq!(b.text(), "Wait--what?");
    type_all(&mut b, "Wait--");
    assert!(b.errors().is_empty());
    assert_eq!(b.cursor(), Len::new(6, 6));
}

#[test]
fn canonical_text_joins_trimmed_lines() {
    let blocks = vec![
        Content::Header("  Title \n".to_owned(), Styling::builder().build()),
        Content::Image,
        plain("first\n  second  \n\n\nthird"),
        plain("   "),
        Content::Quote("\u{a0}quoted\u{3000}".to_owned(), Styling::builder().build()),
    ];
    let b = Backend::new(&blocks);
    assert_eq!(b.text(), "Title\nfirst\nsecond\nthird\nquoted");
}

#[test]
fn canonical_text_of_blank_blocks_is_empty() {
    let b = Backend::new(&vec![plain(" \n "), Content::Image, plain("")]);
    assert_eq!(b.text(), "");
}

#[test]
fn canonical_styles_follow_the_lines() {
    // "  ab cd \n ef": italic over "ab", bold over "d \n e"
    let mut sb = Styling::builder();
    sb.add(Style::italic(), Len::new(2, 2)..Len::new(4, 4));
    sb.add(Style::bold(), Len::new(6, 6)..Len::new(11, 11));
    let first = Content::Paragraph("  ab cd \n ef".to_owned(), sb.build());
    let mut sb = Styling::builder();
    sb.add(Style::bold(), Len::new(0, 0)..Len::new(3, 2));
    let second = Content::Paragraph("\u{e9}x".to_owned(), sb.build());
    let b = Backend::new(&vec![first, second]);
    assert_eq!(b.text(), "ab cd\nef\n\u{e9}x");
    let end = Len::new(b.text().len(), b.text().chars().count());
    assert_eq!(
        b.style_iter(Len::new(0, 0), end),
        vec![
            (Style::italic(), Len::new(2, 2)),
            (Style::empty(), Len::new(2, 2)),
            (Style::bold(), Len::new(1, 1)),
            (Style::empty(), Len::new(1, 1)),
            (Style::bold(), Len::new(1, 1)),
            (Style::empty(), Len::new(2, 2)),
            (Style::bold(), Len::new(3, 2)),
        ]
    );
    assert_eq!(b.style_iter(Len::new(1, 1), Len::new(3, 3)), vec![
        (Style::italic(), Len::new(1, 1)),
        (Style::empty(), Len::new(1, 1)),
    ]);
}
