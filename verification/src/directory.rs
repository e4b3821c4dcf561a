//! Finding a book by its title among the files of one directory. What
//! the directory holds is read elsewhere; here each file is judged.

use vstd::prelude::*;
use vstd::string::*;
use crate::archive::Archive;
use crate::css::{contains_str, has_substring};
use crate::epub::{Fault, PackageError};
use crate::package::{package_of, preview_of, Epub, EpubPreview, EpubView};
use crate::text::{chars_of, find_last, last_index_of, lemma_last_index_of, lowercase, lowered, string_of};
use crate::xml::str_eq;

verus! {

/// A directory that holds books.
#[derive(Debug)]
pub struct Directory {
    dir: String,
}

impl View for Directory {
    type V = Seq<char>;

    closed spec fn view(&self) -> Seq<char> {
        self.dir@
    }
}

/// The directory `name` inside `base`.
pub open spec fn inside(base: Seq<char>, name: Seq<char>) -> Seq<char> {
    if base.len() == 0 || base.last() == '/' {
        base + name
    } else {
        base + seq!['/'] + name
    }
}

/// Where the books lie: the directory `books` in the home directory
/// `home`.
pub fn ebook_directory(home: &str) -> (r: String)
    ensures
        r@ == inside(home@, "books"@),
{
    let chars = chars_of(home);
    let mut out = home.to_owned();
    if chars.len() > 0 && chars[chars.len() - 1] != '/' {
        out.push('/');
    }
    out.append("books");
    out
}

/// What follows the last full stop of the file name at the end of
/// `path`, where that full stop is not the first character of the name.
pub open spec fn extension_of(path: Seq<char>) -> Option<Seq<char>> {
    let name = match last_index_of(path, '/') {
        Some(i) => path.skip(i + 1),
        None => path,
    };
    match last_index_of(name, '.') {
        Some(i) => if i > 0 {
            Some(name.skip(i + 1))
        } else {
            None
        },
        None => None,
    }
}

/// Whether the file at `path` is a book by its name: its extension is
/// `epub`.
pub fn is_epub_path(path: &str) -> (r: bool)
    ensures
        r == (extension_of(path@) == Some("epub"@)),
{
    let chars = chars_of(path);
    proof {
        lemma_last_index_of(chars@, '/');
    }
    let start = match find_last(&chars, '/') {
        Some(i) => i + 1,
        None => 0,
    };
    let name = crate::text::slice_of(&chars, start, chars.len());
    proof {
        assert(chars@.subrange(start as int, chars.len() as int) == chars@.skip(start as int));
        assert(chars@.skip(0) == chars@);
        lemma_last_index_of(name@, '.');
    }
    match find_last(&name, '.') {
        Some(i) => {
            if i > 0 {
                let ext = string_of(&name, i + 1, name.len());
                proof {
                    assert(name@.subrange(i + 1, name.len() as int) == name@.skip(i + 1));
                }
                str_eq(ext.as_str(), "epub")
            } else {
                false
            }
        },
        None => false,
    }
}

/// Whether `title` holds `query`, both taken in lowercase.
pub open spec fn title_holds(title: Seq<char>, query: Seq<char>) -> bool {
    has_substring(lowered(title), lowered(query))
}

/// Whether the title `title` answers the query `query`: it holds the
/// query, whatever the case of either.
pub fn title_matches(title: &str, query: &str) -> (r: bool)
    ensures
        r == title_holds(title@, query@),
{
    let t = lowercase(title);
    let q = lowercase(query);
    contains_str(t.as_str(), q.as_str())
}

/// What the file with the bytes `bytes` is to a search for `query`: the
/// book where its title answers the query, nothing where it does not,
/// and a failure where it is no package. Only the metadata is read
/// before the title is judged.
pub open spec fn candidate_of(bytes: Seq<u8>, query: Seq<char>) -> Result<Option<EpubView>, Fault> {
    match preview_of(bytes) {
        Err(e) => Err(e),
        Ok(preview) => if title_holds(preview.metadata.title, query) {
            match package_of(preview) {
                Ok(epub) => Ok(Some(epub)),
                Err(e) => Err(e),
            }
        } else {
            Ok(None)
        },
    }
}

impl Directory {
    /// The directory at `dir`.
    pub fn from_path(dir: String) -> (r: Directory)
        ensures
            r@ == dir@,
    {
        Directory { dir }
    }

    /// The directory of books in the home directory `home`.
    pub fn from_home(home: &str) -> (r: Directory)
        ensures
            r@ == inside(home@, "books"@),
    {
        Directory { dir: ebook_directory(home) }
    }

    /// Where the directory lies.
    pub fn path(&self) -> (r: &str)
        ensures
            r@ == self@,
    {
        self.dir.as_str()
    }

    /// Judges one file of the directory for a search for `query`.
    pub fn candidate(bytes: Vec<u8>, query: &str) -> (r: Result<Option<Epub>, PackageError>)
        ensures
            (match candidate_of(bytes@, query@) {
                Ok(Some(e)) => r matches Ok(Some(epub)) && epub@ == e,
                Ok(None) => r matches Ok(None),
                Err(fault) => r matches Err(e) && e@ == fault,
            }),
    {
        let preview = match EpubPreview::open(Archive::new(bytes)) {
            Ok(preview) => preview,
            Err(e) => {
                return Err(e);
            },
        };
        if !title_matches(preview.title(), query) {
            return Ok(None);
        }
        match preview.full() {
            Ok(epub) => Ok(Some(epub)),
            Err(e) => Err(e),
        }
    }
}

} // verus!
