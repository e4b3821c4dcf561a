use typebook::canon::{assemble, push_range, scan_line};
use typebook::content::Content;
use typebook::position::Len;
use typebook::style::{Style, Styling};
use typebook::text::{
    count_char, find_first, find_last, find_match, length_fits, matches_at, slice_of, split_last, trim_end_at,
    trim_start_at,
};

fn chars(s: &str) -> Vec<char> {
    s.chars().collect()
}

#[test]
fn scan_finds_the_trimmed_line_and_its_end() {
    let text = chars(" \u{e9}b \nnext");
    let scan = scan_line(&text, 0, 0);
    assert_eq!(scan.first, Len::new(1, 1));
    assert_eq!(scan.last, Len::new(4, 3));
    assert_eq!(scan.end, 4);
    assert_eq!(scan.end_bytes, 5);
    let scan = scan_line(&text, 5, 6);
    assert_eq!(scan.first, Len::new(6, 5));
    assert_eq!(scan.last, Len::new(10, 9));
    assert_eq!(scan.end, 9);
    assert_eq!(scan.end_bytes, 10);
}

#[test]
fn scan_of_a_blank_line_is_empty() {
    let text = chars("  \n");
    let scan = scan_line(&text, 0, 0);
    assert_eq!(scan.first, scan.last);
    assert_eq!(scan.end, 2);
    let scan = scan_line(&text, 3, 3);
    assert_eq!(scan.first, Len::new(3, 3));
    assert_eq!(scan.last, Len::new(3, 3));
    assert_eq!(scan.end, 3);
}

#[test]
fn ranges_are_pushed_as_they_are() {
    let mut out = String::from("x");
    push_range(&mut out, &chars("abcdef"), 2, 5);
    assert_eq!(out, "xcde");
    push_range(&mut out, &chars("abcdef"), 3, 3);
    assert_eq!(out, "xcde");
}

#[test]
fn assembled_text_has_its_styles_and_none_behind_its_end() {
    let mut b = Styling::builder();
    // bold over " a  b \n\n ", which leaves out the "c"
    b.add(Style::bold(), Len::new(0, 0)..Len::new(9, 9));
    let blocks = vec![Content::Quote(" a  b \n\n c ".to_owned(), b.build()), Content::Image];
    let (text, styling) = assemble(&blocks);
    assert_eq!(text, "a  b\nc");
    assert_eq!(
        styling.iter(Len::new(0, 0), Len::new(10, 10)),
        vec![(Style::bold(), Len::new(4, 4)), (Style::empty(), Len::new(6, 6))]
    );
}

#[test]
fn assembling_nothing_gives_an_empty_text() {
    let (text, styling) = assemble(&vec![]);
    assert_eq!(text, "");
    assert_eq!(styling.iter(Len::new(0, 0), Len::new(0, 0)), vec![]);
}

#[test]
fn searching_in_characters() {
    let text = chars("a.b.c");
    assert_eq!(find_first(&text, '.'), Some(1));
    assert_eq!(find_last(&text, '.'), Some(3));
    assert_eq!(find_first(&text, 'x'), None);
    assert_eq!(find_last(&text, 'x'), None);
    assert_eq!(count_char(&text, '.'), 2);
    assert_eq!(count_char(&text, 'x'), 0);
    assert!(matches_at(&text, &chars(".b"), 1));
    assert!(!matches_at(&text, &chars(".b"), 3));
    assert!(matches_at(&text, &chars(""), 5));
    assert_eq!(find_match(&text, &chars(".c"), 0), Some(3));
    assert_eq!(find_match(&text, &chars("."), 2), Some(3));
    assert_eq!(find_match(&text, &chars("cc"), 0), None);
    assert_eq!(find_match(&text, &chars(""), 5), Some(5));
    assert_eq!(slice_of(&text, 1, 4), chars(".b."));
}

#[test]
fn cutting_at_the_last_separator() {
    assert_eq!(split_last("a/b/c", '/'), Some(("a/b".to_owned(), "c".to_owned())));
    assert_eq!(split_last("abc", '/'), None);
    assert_eq!(split_last("/", '/'), Some((String::new(), String::new())));
}

#[test]
fn trimming_by_index() {
    let text = chars("  ab  ");
    assert_eq!(trim_start_at(&text), 2);
    assert_eq!(trim_end_at(&text, 2), 4);
    assert_eq!(trim_end_at(&text, 5), 5);
    let blank = chars("   ");
    assert_eq!(trim_start_at(&blank), 3);
    assert_eq!(trim_end_at(&blank, 0), 0);
    length_fits("any string fits");
}
