use typebook::css::{
    contains_str, parse_usize, reduce_declaration, reduce_rules, style_rules, tag_name, update_style, CssAttribute,
    Declaration,
};
use typebook::style::{Align, Style};
use typebook::xml::XmlNode;

fn decl(name: &str, value: &str) -> Declaration {
    Declaration { name: name.to_owned(), value: value.to_owned() }
}

#[test]
fn numbers_are_digits_after_an_optional_plus() {
    assert_eq!(parse_usize("0"), Some(0));
    assert_eq!(parse_usize("400"), Some(400));
    assert_eq!(parse_usize("+17"), Some(17));
    assert_eq!(parse_usize("007"), Some(7));
    assert_eq!(parse_usize(""), None);
    assert_eq!(parse_usize("+"), None);
    assert_eq!(parse_usize("-1"), None);
    assert_eq!(parse_usize("1 "), None);
    assert_eq!(parse_usize(" 1"), None);
    assert_eq!(parse_usize("1_0"), None);
    assert_eq!(parse_usize("12a"), None);
    assert_eq!(parse_usize("++1"), None);
}

#[test]
fn numbers_agree_with_std_at_the_machine_limit() {
    let max = usize::MAX.to_string();
    assert_eq!(parse_usize(&max), Some(usize::MAX));
    let over = format!("{}0", max);
    assert_eq!(parse_usize(&over), None);
    let next = (usize::MAX as u128 + 1).to_string();
    assert_eq!(parse_usize(&next), None);
    for s in ["18446744073709551615", "18446744073709551616", "4294967295", "4294967296", "99999999999999999999999"] {
        assert_eq!(parse_usize(s), s.parse::<usize>().ok());
    }
}

#[test]
fn substring_search_finds_every_place() {
    assert!(contains_str("oblique 10deg", "oblique"));
    assert!(contains_str("x oblique", "oblique"));
    assert!(contains_str("abc", ""));
    assert!(contains_str("", ""));
    assert!(!contains_str("obliqu", "oblique"));
    assert!(!contains_str("", "a"));
    assert!(contains_str("aab", "ab"));
}

#[test]
fn font_style_reduces_to_italics() {
    assert_eq!(reduce_declaration("font-style", "italic"), Some(CssAttribute::Style(Style::italic())));
    assert_eq!(reduce_declaration("font-style", "oblique"), Some(CssAttribute::Style(Style::italic())));
    assert_eq!(reduce_declaration("font-style", "oblique 14deg"), Some(CssAttribute::Style(Style::italic())));
    assert_eq!(reduce_declaration("font-style", "normal"), None);
    assert_eq!(reduce_declaration("font-style", "Italic"), None);
}

#[test]
fn font_weight_reduces_to_bold_above_400() {
    assert_eq!(reduce_declaration("font-weight", "bold"), Some(CssAttribute::Style(Style::bold())));
    assert_eq!(reduce_declaration("font-weight", "bolder"), Some(CssAttribute::Style(Style::bold())));
    assert_eq!(reduce_declaration("font-weight", "401"), Some(CssAttribute::Style(Style::bold())));
    assert_eq!(reduce_declaration("font-weight", "700"), Some(CssAttribute::Style(Style::bold())));
    assert_eq!(reduce_declaration("font-weight", "400"), None);
    assert_eq!(reduce_declaration("font-weight", "normal"), None);
    assert_eq!(reduce_declaration("font-weight", "lighter"), None);
    assert_eq!(reduce_declaration("font-weight", "99999999999999999999999999"), None);
}

#[test]
fn text_align_reduces_to_an_alignment() {
    assert_eq!(reduce_declaration("text-align", "left"), Some(CssAttribute::Align(Align::Left)));
    assert_eq!(reduce_declaration("text-align", "center"), Some(CssAttribute::Align(Align::Center)));
    assert_eq!(reduce_declaration("text-align", "right"), Some(CssAttribute::Align(Align::Right)));
    assert_eq!(reduce_declaration("text-align", "justify"), Some(CssAttribute::Align(Align::Left)));
    assert_eq!(reduce_declaration("text-align", "inherit"), None);
    assert_eq!(reduce_declaration("text-align", "start"), None);
}

#[test]
fn other_declarations_reduce_to_nothing() {
    assert_eq!(reduce_declaration("color", "red"), None);
    assert_eq!(reduce_declaration("font", "italic"), None);
    assert_eq!(reduce_declaration("", ""), None);
}

#[test]
fn rules_reduce_in_order_with_their_index() {
    let rules = vec![
        vec![decl("color", "red")],
        vec![decl("font-style", "italic"), decl("margin", "0"), decl("text-align", "right")],
        vec![],
        vec![decl("font-weight", "bold")],
    ];
    assert_eq!(
        reduce_rules(&rules),
        vec![
            (1, CssAttribute::Style(Style::italic())),
            (1, CssAttribute::Align(Align::Right)),
            (3, CssAttribute::Style(Style::bold())),
        ]
    );
}

#[test]
fn style_sheets_are_parsed_into_one_sheet() {
    let sheets = vec![
        "p { font-style: italic } h1.big { text-align: center }".to_owned(),
        "@media print { p { font-weight: bold } } em { font-weight: 500 }".to_owned(),
    ];
    // simplecss keeps the rules by specificity: p, em, h1.big
    assert_eq!(
        style_rules(&sheets),
        vec![
            (0, CssAttribute::Style(Style::italic())),
            (1, CssAttribute::Style(Style::bold())),
            (2, CssAttribute::Align(Align::Center)),
        ]
    );
    assert_eq!(style_rules(&vec![]), vec![]);
    assert_eq!(style_rules(&vec!["not css at all {{{".to_owned()]), vec![]);
}

#[test]
fn tag_names_are_empty_for_other_nodes() {
    assert_eq!(tag_name(&XmlNode::new_element(0, "em", vec![], vec![])), "em");
    assert_eq!(tag_name(&XmlNode::new_text(0, "em")), "");
}

#[test]
fn styles_add_up_and_the_last_alignment_stands() {
    let rules = vec![
        (0, CssAttribute::Style(Style::italic())),
        (1, CssAttribute::Align(Align::Right)),
        (2, CssAttribute::Align(Align::Center)),
        (3, CssAttribute::Style(Style::bold())),
    ];
    let matched = vec![vec![true, true, true, false]];
    let node = XmlNode::new_element(0, "span", vec![], vec![]);
    assert_eq!(update_style(&rules, &matched, &node, Style::empty(), None), (Style::italic(), Some(Align::Center)));
    assert_eq!(
        update_style(&rules, &matched, &node, Style::bold(), Some(Align::Left)),
        (Style::bold().union(Style::italic()), Some(Align::Center))
    );
    assert_eq!(update_style(&rules, &vec![], &node, Style::bold(), Some(Align::Left)), (Style::bold(), Some(Align::Left)));
}

#[test]
fn tags_add_their_own_style_after_the_rules() {
    let none: Vec<(usize, CssAttribute)> = vec![];
    for (tag, style, align) in [
        ("i", Style::italic(), None),
        ("em", Style::italic(), None),
        ("b", Style::bold(), None),
        ("strong", Style::bold(), None),
        ("center", Style::empty(), Some(Align::Center)),
        ("span", Style::empty(), None),
    ] {
        let node = XmlNode::new_element(0, tag, vec![], vec![]);
        assert_eq!(update_style(&none, &vec![], &node, Style::empty(), None), (style, align));
    }
    // a text node has no tag
    let text = XmlNode::new_text(0, "b");
    assert_eq!(update_style(&none, &vec![], &text, Style::empty(), None), (Style::empty(), None));
}
