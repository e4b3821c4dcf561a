use typebook::author::Author;

fn parts(raw: &str) -> (String, Option<String>, String) {
    let a = Author::parse(raw).unwrap();
    (a.first().to_owned(), a.middles().map(str::to_owned), a.surname().to_owned())
}

#[test]
fn empty_and_unknown_names_stand_for_no_author() {
    assert!(Author::parse("").is_none());
    assert!(Author::parse("   ").is_none());
    assert!(Author::parse("Unknown").is_none());
    assert!(Author::parse("  Unknown\n").is_none());
    assert!(Author::parse("unknown").is_some());
}

#[test]
fn two_words_are_first_name_and_surname() {
    assert_eq!(parts("Jane Austen"), ("Jane".to_owned(), None, "Austen".to_owned()));
    assert_eq!(Author::parse("Jane Austen").unwrap().display(), "Jane Austen");
}

#[test]
fn names_in_capitals_are_written_normally() {
    assert_eq!(parts("JANE AUSTEN"), ("Jane".to_owned(), None, "Austen".to_owned()));
}

#[test]
fn a_comma_puts_the_surname_first() {
    assert_eq!(parts("Austen, Jane"), ("Jane".to_owned(), None, "Austen".to_owned()));
    assert_eq!(parts("Tolkien, John Ronald"), ("John".to_owned(), Some("Ronald".to_owned()), "Tolkien".to_owned()));
}

#[test]
fn initials_get_full_stops() {
    assert_eq!(parts("J.R.R. Tolkien"), ("J.".to_owned(), Some("R. R.".to_owned()), "Tolkien".to_owned()));
    assert_eq!(Author::parse("J.R.R. Tolkien").unwrap().display(), "J. R. R. Tolkien");
    assert_eq!(parts("JRR Tolkien"), ("J.".to_owned(), Some("R. R.".to_owned()), "Tolkien".to_owned()));
}

#[test]
fn middle_names_stand_between() {
    assert_eq!(
        parts("Arthur Conan Doyle"),
        ("Arthur".to_owned(), Some("Conan".to_owned()), "Doyle".to_owned())
    );
    assert_eq!(Author::parse("Arthur Conan Doyle").unwrap().display(), "Arthur Conan Doyle");
}

#[test]
fn a_single_word_is_a_first_name_without_surname() {
    assert_eq!(parts("Plato"), ("Plato".to_owned(), None, String::new()));
    assert_eq!(Author::parse("Plato").unwrap().display(), "Plato ");
}

#[test]
fn uppercase_follows_unicode() {
    assert_eq!(parts("émile zola"), ("Émile".to_owned(), None, "Zola".to_owned()));
    assert_eq!(parts("ßen x"), ("SSen".to_owned(), None, "X.".to_owned()));
}
