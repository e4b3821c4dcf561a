//! Links between the files of a package, resolved as URLs against the
//! base `epub:/`. The URL arithmetic is the url crate's.

use vstd::prelude::*;
use crate::text::{chars_of, string_of};

verus! {

/// `url::Url`, held as it is; what it holds is named by [`url_text`].
#[verifier::external_type_specification]
#[verifier::external_body]
pub struct ExUrl(url::Url);

/// The text that a URL serialises to. Two URLs of one text are the same
/// URL.
pub uninterp spec fn url_text(url: url::Url) -> Seq<char>;

/// What `url::Url::parse` makes of `input`: the text of the URL, or
/// nothing where `input` is no absolute URL.
pub uninterp spec fn parsed_url(input: Seq<char>) -> Option<Seq<char>>;

/// What `url::Url::join` makes of `input` against the URL with the text
/// `base`: the text of the resolved URL, or nothing.
pub uninterp spec fn joined_url(base: Seq<char>, input: Seq<char>) -> Option<Seq<char>>;

/// What `url::Url::path` gives for the URL with the text `url`.
pub uninterp spec fn url_path(url: Seq<char>) -> Seq<char>;

/// `url::Url::parse`, without the reason of a failure.
#[verifier::external_body]
fn url_parse(input: &str) -> (r: Option<url::Url>)
    ensures
        r matches Some(u) ==> parsed_url(input@) == Some(url_text(u)),
        r is None ==> parsed_url(input@) is None,
{
    url::Url::parse(input).ok()
}

/// `url::Url::join`, without the reason of a failure.
#[verifier::external_body]
fn url_join(base: &url::Url, input: &str) -> (r: Option<url::Url>)
    ensures
        r matches Some(u) ==> joined_url(url_text(*base), input@) == Some(url_text(u)),
        r is None ==> joined_url(url_text(*base), input@) is None,
{
    base.join(input).ok()
}

/// `url::Url::path`.
#[verifier::external_body]
fn url_path_of(url: &url::Url) -> (r: String)
    ensures
        r@ == url_path(url_text(*url)),
{
    url.path().to_owned()
}

/// The text of the URL of the file at `path` in the package: `path`
/// joined to `epub:/`.
pub open spec fn item_url(path: Seq<char>) -> Option<Seq<char>> {
    match parsed_url("epub:/"@) {
        Some(root) => joined_url(root, path),
        None => None,
    }
}

/// The text of the URL that `href` points to from the file at `base`.
pub open spec fn hyperlink_url(base: Seq<char>, href: Seq<char>) -> Option<Seq<char>> {
    match item_url(base) {
        Some(from) => joined_url(from, href),
        None => None,
    }
}

/// `path` without its first character.
pub open spec fn without_first(path: Seq<char>) -> Seq<char> {
    if path.len() > 0 {
        path.drop_first()
    } else {
        path
    }
}

/// The path in the package that `href` points to from the file at
/// `base`: the path of the resolved URL without the slash at its start.
pub open spec fn hyperlink_target(base: Seq<char>, href: Seq<char>) -> Option<Seq<char>> {
    match hyperlink_url(base, href) {
        Some(url) => Some(without_first(url_path(url))),
        None => None,
    }
}

/// The URL of the file at `path` in the package.
pub fn item_uri(path: &str) -> (r: Option<url::Url>)
    ensures
        r matches Some(u) ==> item_url(path@) == Some(url_text(u)),
        r is None ==> item_url(path@) is None,
{
    match url_parse("epub:/") {
        Some(root) => url_join(&root, path),
        None => None,
    }
}

/// The URL that `href` points to from the file at `base`.
pub fn parse_hyperlink(base: &str, href: &str) -> (r: Option<url::Url>)
    ensures
        r matches Some(u) ==> hyperlink_url(base@, href@) == Some(url_text(u)),
        r is None ==> hyperlink_url(base@, href@) is None,
{
    match item_uri(base) {
        Some(from) => url_join(&from, href),
        None => None,
    }
}

/// The path of the URL that `href` points to from the URL with the text
/// `base`.
pub open spec fn joined_path(base: Seq<char>, href: Seq<char>) -> Option<Seq<char>> {
    match joined_url(base, href) {
        Some(url) => Some(url_path(url)),
        None => None,
    }
}

/// The path of the URL that `href` points to from `base`.
pub fn join_path(base: &url::Url, href: &str) -> (r: Option<String>)
    ensures
        crate::xml::opt_view(r) == joined_path(url_text(*base), href@),
{
    match url_join(base, href) {
        Some(url) => Some(url_path_of(&url)),
        None => None,
    }
}

/// The path of `url`.
pub fn path_of(url: &url::Url) -> (r: String)
    ensures
        r@ == url_path(url_text(*url)),
{
    url_path_of(url)
}

/// The path in the package that `url` names: its path without the slash
/// at its start.
pub fn target_of(url: &url::Url) -> (r: String)
    ensures
        r@ == without_first(url_path(url_text(*url))),
{
    let path = url_path_of(url);
    let chars = chars_of(path.as_str());
    if chars.len() > 0 {
        string_of(&chars, 1, chars.len())
    } else {
        path
    }
}

/// The path in the package that `href` points to from the file at
/// `base`, where the two make a URL.
pub fn resolve(base: &str, href: &str) -> (r: Option<String>)
    ensures
        (match hyperlink_target(base@, href@) {
            Some(t) => r matches Some(s) && s@ == t,
            None => r is None,
        }),
{
    match parse_hyperlink(base, href) {
        Some(url) => Some(target_of(&url)),
        None => None,
    }
}

} // verus!
