use typebook::content::Content;
use typebook::css::CssAttribute;
use typebook::flatten::{flatten, push_text, traverse_block};
use typebook::position::Len;
use typebook::style::{Align, Style, Styling};
use typebook::xml::{Attribute, XmlNode};

fn element(id: usize, name: &str, attributes: Vec<(&str, &str)>, children: Vec<XmlNode>) -> XmlNode {
    XmlNode::new_element(id, name, attributes.into_iter().map(|(n, v)| Attribute::new(n, v)).collect(), children)
}

fn text(id: usize, s: &str) -> XmlNode {
    XmlNode::new_text(id, s)
}

fn el(name: &str, children: Vec<XmlNode>) -> XmlNode {
    element(0, name, vec![], children)
}

fn tx(s: &str) -> XmlNode {
    text(0, s)
}

fn parts(c: &Content) -> (&str, &Styling) {
    match c {
        Content::Header(t, s) | Content::Paragraph(t, s) | Content::Quote(t, s) => (t.as_str(), s),
        Content::Image => panic!("an image carries no text"),
    }
}

fn whole(t: &str) -> Len {
    Len::new(t.len(), t.chars().count())
}

fn pushed(buf: &str, s: &str) -> String {
    let mut text = buf.to_owned();
    push_text(&mut text, s);
    text
}

#[test]
fn whitespace_runs_collapse_to_one_space() {
    assert_eq!(pushed("", "a  \t\n b"), "a b");
    assert_eq!(pushed("", "a b \r\n"), "a b ");
}

#[test]
fn leading_whitespace_goes_on_an_empty_buffer() {
    assert_eq!(pushed("", "  a"), "a");
    assert_eq!(pushed("", "   "), "");
}

#[test]
fn a_space_parts_buffer_and_text_only_after_a_word() {
    assert_eq!(pushed("x", " a"), "x a");
    assert_eq!(pushed("x ", " a"), "x a");
    assert_eq!(pushed("x\n", " a"), "x\na");
    assert_eq!(pushed("x", "a"), "xa");
    assert_eq!(pushed("x", "  "), "x ");
    assert_eq!(pushed("x ", "  "), "x ");
}

#[test]
fn only_ascii_whitespace_collapses() {
    assert_eq!(pushed("", "a\u{a0}\u{a0}b"), "a\u{a0}\u{a0}b");
    assert_eq!(pushed("", "a\u{b}b"), "a\u{b}b");
}

#[test]
fn multichars_are_replaced_inside_words() {
    assert_eq!(pushed("", "Wait\u{2014}what?"), "Wait--what?");
    assert_eq!(pushed("", "so\u{2026} yes"), "so... yes");
    assert_eq!(pushed("a", " \u{2014} b"), "a -- b");
}

#[test]
fn empty_text_changes_nothing() {
    assert_eq!(pushed("abc", ""), "abc");
}

#[test]
fn paragraph_flattens_nested_markup() {
    let body = el("body", vec![el(
        "p",
        vec![tx("Hello "), el("b", vec![tx("bold "), el("i", vec![tx("both")])]), tx(" end")],
    )]);
    let blocks = flatten(&body, &vec![], &vec![]);
    assert_eq!(blocks.len(), 1);
    assert!(matches!(blocks[0].0, Content::Paragraph(..)));
    assert_eq!(blocks[0].1, None);
    let (t, s) = parts(&blocks[0].0);
    assert_eq!(t, "Hello bold both end");
    assert_eq!(
        s.iter(Len::new(0, 0), whole(t)),
        vec![
            (Style::empty(), Len::new(6, 6)),
            (Style::bold(), Len::new(5, 5)),
            (Style::bold().union(Style::italic()), Len::new(4, 4)),
            (Style::empty(), Len::new(4, 4)),
        ]
    );
}

#[test]
fn separating_space_belongs_to_the_following_run() {
    let body = el("p", vec![el("em", vec![tx("a")]), el("strong", vec![tx(" b")])]);
    let blocks = flatten(&body, &vec![], &vec![]);
    let (t, s) = parts(&blocks[0].0);
    assert_eq!(t, "a b");
    assert_eq!(s.iter(Len::new(0, 0), whole(t)), vec![
        (Style::italic(), Len::new(1, 1)),
        (Style::bold(), Len::new(2, 2)),
    ]);
}

#[test]
fn line_break_adds_an_unstyled_line_feed() {
    let body = el("p", vec![el("i", vec![tx("one"), el("br", vec![]), tx("two")])]);
    let blocks = flatten(&body, &vec![], &vec![]);
    let (t, s) = parts(&blocks[0].0);
    assert_eq!(t, "one\ntwo");
    assert_eq!(
        s.iter(Len::new(0, 0), whole(t)),
        vec![
            (Style::italic(), Len::new(3, 3)),
            (Style::empty(), Len::new(1, 1)),
            (Style::italic(), Len::new(3, 3)),
        ]
    );
}

#[test]
fn block_text_is_trimmed_at_its_end() {
    let body = el("p", vec![tx("text \n "), el("br", vec![]), tx("\u{a0}")]);
    let blocks = flatten(&body, &vec![], &vec![]);
    let (t, _) = parts(&blocks[0].0);
    assert_eq!(t, "text");
}

#[test]
fn blocks_without_text_are_left_out() {
    let body = el("body", vec![el("p", vec![tx("  \n ")]), el("h1", vec![]), el("p", vec![el("br", vec![])])]);
    assert!(flatten(&body, &vec![], &vec![]).is_empty());
}

#[test]
fn headings_quotes_and_images_come_in_document_order() {
    let body = el(
        "body",
        vec![
            el("h2", vec![tx("Title")]),
            el("div", vec![el("blockquote", vec![tx("Quote")]), element(0, "img", vec![("src", "a.png")], vec![])]),
            el("img", vec![]),
            el("image", vec![]),
            tx("stray text"),
            el("p", vec![tx("Para")]),
        ],
    );
    let blocks = flatten(&body, &vec![], &vec![]);
    assert_eq!(blocks.len(), 5);
    assert!(matches!(&blocks[0].0, Content::Header(t, _) if t == "Title"));
    assert!(matches!(&blocks[1].0, Content::Quote(t, _) if t == "Quote"));
    assert!(matches!(blocks[2].0, Content::Image));
    assert!(matches!(blocks[3].0, Content::Image));
    assert!(matches!(&blocks[4].0, Content::Paragraph(t, _) if t == "Para"));
}

#[test]
fn a_block_inside_a_block_is_flattened_into_it() {
    let body = el("blockquote", vec![el("p", vec![tx("inner")]), tx(" tail")]);
    let blocks = flatten(&body, &vec![], &vec![]);
    assert_eq!(blocks.len(), 1);
    assert!(matches!(&blocks[0].0, Content::Quote(t, _) if t == "inner tail"));
}

#[test]
fn center_tag_sets_the_alignment_of_what_is_below() {
    let body = el("body", vec![el("center", vec![el("p", vec![tx("mid")])]), el("p", vec![tx("plain")])]);
    let blocks = flatten(&body, &vec![], &vec![]);
    assert_eq!(blocks[0].1, Some(Align::Center));
    assert_eq!(blocks[1].1, None);
}

#[test]
fn matching_rules_add_styles_and_the_last_alignment_stands() {
    // nodes: 0 body, 1 p, 2 text, 3 span, 4 text
    let body = element(
        0,
        "body",
        vec![],
        vec![element(1, "p", vec![], vec![text(2, "a "), element(3, "span", vec![], vec![text(4, "b")])])],
    );
    let rules = vec![
        (0, CssAttribute::Align(Align::Right)),
        (1, CssAttribute::Style(Style::italic())),
        (2, CssAttribute::Align(Align::Left)),
        (3, CssAttribute::Style(Style::bold())),
    ];
    let mut matched = vec![vec![false; 4]; 5];
    matched[1][0] = true;
    matched[1][2] = true;
    matched[3][1] = true;
    matched[3][3] = true;
    let blocks = flatten(&body, &rules, &matched);
    assert_eq!(blocks[0].1, Some(Align::Left));
    let (t, s) = parts(&blocks[0].0);
    assert_eq!(t, "a b");
    assert_eq!(s.iter(Len::new(0, 0), whole(t)), vec![
        (Style::empty(), Len::new(2, 2)),
        (Style::italic().union(Style::bold()), Len::new(1, 1)),
    ]);
}

#[test]
fn tag_defaults_override_the_alignment_of_rules() {
    let body = element(0, "center", vec![], vec![element(1, "p", vec![], vec![text(2, "x")])]);
    let rules = vec![(0, CssAttribute::Align(Align::Right))];
    let matched = vec![vec![true], vec![false], vec![false]];
    let blocks = flatten(&body, &rules, &matched);
    assert_eq!(blocks[0].1, Some(Align::Center));
}

#[test]
fn nodes_outside_the_table_match_nothing() {
    let body = element(7, "p", vec![], vec![text(8, "x")]);
    let rules = vec![(0, CssAttribute::Style(Style::bold())), (5, CssAttribute::Align(Align::Right))];
    let matched = vec![vec![true]];
    let blocks = flatten(&body, &rules, &matched);
    assert_eq!(blocks[0].1, None);
    let (t, s) = parts(&blocks[0].0);
    assert_eq!(s.iter(Len::new(0, 0), whole(t)), vec![(Style::empty(), Len::new(1, 1))]);
}

#[test]
fn traverse_block_appends_to_a_buffer_in_use() {
    let mut text = String::from("so far");
    let mut styling = Styling::builder();
    styling.add(Style::bold(), Len::new(0, 0)..Len::new(2, 2));
    traverse_block(&el("i", vec![tx(" caf\u{e9}")]), &vec![], &vec![], Style::empty(), None, &mut text, &mut styling);
    assert_eq!(text, "so far caf\u{e9}");
    assert_eq!(
        styling.build().iter(Len::new(0, 0), whole(&text)),
        vec![
            (Style::bold(), Len::new(2, 2)),
            (Style::empty(), Len::new(4, 4)),
            (Style::italic(), Len::new(6, 5)),
        ]
    );
}
