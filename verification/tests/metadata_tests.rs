use typebook::epub::PackageErrorKind;
use typebook::metadata::Metadata;
use typebook::text::{chars_of, replace_all, split_at_each, split_words, trimmed};
use typebook::xml_parse::parse_xml;

fn chars(s: &str) -> Vec<char> {
    s.chars().collect()
}

fn strings(parts: Vec<Vec<char>>) -> Vec<String> {
    parts.into_iter().map(|p| p.into_iter().collect()).collect()
}

fn meta(inner: &str) -> Result<Metadata, PackageErrorKind> {
    let text = format!("<metadata xmlns:opf=\"http://www.idpf.org/2007/opf\">{}</metadata>", inner);
    let doc = parse_xml(&text).unwrap();
    Metadata::parse(&doc.children[0]).map_err(|e| e.kind)
}

#[test]
fn metadata_reads_the_three_fields_and_the_creators() {
    let m = meta(
        "<identifier>id</identifier><title>T</title><language>en</language>\
         <creator>Jane Austen and Emily Bronte</creator><creator opf:file-as=\"Doyle, Arthur &amp; Unknown\">x</creator>",
    )
    .unwrap();
    assert_eq!(m.identifier, "id");
    assert_eq!(m.title, "T");
    assert_eq!(m.language, "en");
    let names: Vec<String> = m.creators.iter().map(|a| a.display()).collect();
    assert_eq!(names, vec!["Jane Austen", "Emily Bronte", "Arthur Doyle"]);
}

#[test]
fn later_fields_replace_earlier_ones() {
    let m = meta("<identifier>a</identifier><identifier>b</identifier><title>T</title><language>en</language>").unwrap();
    assert_eq!(m.identifier, "b");
    assert_eq!(
        meta("<identifier>a</identifier><identifier/><title>T</title><language>en</language>").unwrap_err(),
        PackageErrorKind::MissingIdentifier
    );
}

#[test]
fn missing_fields_are_reported_in_order() {
    assert_eq!(meta("").unwrap_err(), PackageErrorKind::MissingIdentifier);
    assert_eq!(meta("<identifier>a</identifier>").unwrap_err(), PackageErrorKind::MissingTitle);
    assert_eq!(
        meta("<identifier>a</identifier><title>T</title>").unwrap_err(),
        PackageErrorKind::MissingLanguage
    );
    assert_eq!(meta("<title>T</title><language>en</language>").unwrap_err(), PackageErrorKind::MissingIdentifier);
}

#[test]
fn creators_without_text_add_no_author() {
    let m = meta("<identifier>a</identifier><title>T</title><language>en</language><creator/>").unwrap();
    assert!(m.creators.is_empty());
}

#[test]
fn splitting_keeps_empty_pieces() {
    assert_eq!(strings(split_at_each(&chars("a&b&"), &chars("&"))), vec!["a", "b", ""]);
    assert_eq!(strings(split_at_each(&chars("a and b and c"), &chars(" and "))), vec!["a", "b", "c"]);
    assert_eq!(strings(split_at_each(&chars("band"), &chars(" and "))), vec!["band"]);
    assert_eq!(strings(split_at_each(&chars(""), &chars("&"))), vec![""]);
    assert_eq!(strings(split_at_each(&chars("aaa"), &chars("aa"))), vec!["", "a"]);
}

#[test]
fn words_are_the_stretches_between_whitespace() {
    assert_eq!(strings(split_words(&chars("  a\u{a0}bc \n d  "))), vec!["a", "bc", "d"]);
    assert!(split_words(&chars(" \t ")).is_empty());
    assert!(split_words(&chars("")).is_empty());
}

#[test]
fn replacing_goes_from_left_to_right_without_overlap() {
    let r: String = replace_all(&chars("a. b.c. "), &chars(". "), &chars(" ")).into_iter().collect();
    assert_eq!(r, "a b.c ");
    let r: String = replace_all(&chars("aaa"), &chars("aa"), &chars("b")).into_iter().collect();
    assert_eq!(r, "ba");
    let r: String = replace_all(&chars("x&nbsp;y&nbsp;"), &chars_of("&nbsp;"), &chars(" ")).into_iter().collect();
    assert_eq!(r, "x y ");
    let r: String = replace_all(&chars("abc"), &chars("abcd"), &chars("x")).into_iter().collect();
    assert_eq!(r, "abc");
}

#[test]
fn trimming_cuts_both_ends() {
    let r: String = trimmed(&chars(" \n a b\u{3000}")).into_iter().collect();
    assert_eq!(r, "a b");
    assert!(trimmed(&chars("  ")).is_empty());
}
