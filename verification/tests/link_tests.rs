use typebook::link::{item_uri, join_path, parse_hyperlink, path_of, resolve, target_of};

#[test]
fn items_lie_below_the_epub_root() {
    let url = item_uri("text/ch1.xhtml").unwrap();
    assert_eq!(url.as_str(), "epub:/text/ch1.xhtml");
    assert_eq!(path_of(&url), "/text/ch1.xhtml");
    assert_eq!(target_of(&url), "text/ch1.xhtml");
}

#[test]
fn links_resolve_against_the_file_that_holds_them() {
    assert_eq!(resolve("text/ch1.xhtml", "ch2.xhtml").as_deref(), Some("text/ch2.xhtml"));
    assert_eq!(resolve("text/ch1.xhtml", "../styles/main.css").as_deref(), Some("styles/main.css"));
    assert_eq!(resolve("text/ch1.xhtml", "ch2.xhtml#frag").as_deref(), Some("text/ch2.xhtml"));
    assert_eq!(resolve("text/ch1.xhtml", "/top.xhtml").as_deref(), Some("top.xhtml"));
    assert_eq!(resolve("text/ch1.xhtml", "").as_deref(), Some("text/ch1.xhtml"));
    assert_eq!(resolve("ch1.xhtml", "a b.xhtml").as_deref(), Some("a%20b.xhtml"));
}

#[test]
fn absolute_links_keep_their_own_path() {
    let url = parse_hyperlink("text/ch1.xhtml", "https://example.com/x/y.html").unwrap();
    assert_eq!(url.as_str(), "https://example.com/x/y.html");
    assert_eq!(resolve("text/ch1.xhtml", "https://example.com/x/y.html").as_deref(), Some("x/y.html"));
    assert_eq!(resolve("text/ch1.xhtml", "mailto:someone").as_deref(), Some("omeone"));
}

#[test]
fn links_that_make_no_url_resolve_to_nothing() {
    assert_eq!(resolve("text/ch1.xhtml", "https://[bad"), None);
    assert!(parse_hyperlink("text/ch1.xhtml", "https://[bad").is_none());
}

#[test]
fn joined_paths_follow_the_base() {
    let base = item_uri("OEBPS/nav.xhtml").unwrap();
    assert_eq!(join_path(&base, "text/ch1.xhtml#x").as_deref(), Some("/OEBPS/text/ch1.xhtml"));
    assert_eq!(join_path(&base, "http://[").as_deref(), None);
}
