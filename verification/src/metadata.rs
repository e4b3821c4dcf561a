//! The metadata of a package: its identifier, title and language, and
//! the names of those who made it.

use vstd::prelude::*;
use crate::author::{author_of, Author, AuthorView};
use crate::epub::{bare, Fault, PackageError, PackageErrorKind};
use crate::text::{
    chars_of, find_first, first_index_of, lemma_first_index_of, split_at_each, split_on, string_of,
};
use crate::xml::{str_eq, NodeKind, XmlNode, XmlTree};

verus! {

/// The metadata of a package.
#[derive(Debug)]
pub struct Metadata {
    pub identifier: String,
    pub title: String,
    pub language: String,
    pub creators: Vec<Author>,
}

/// The metadata of a package as plain values.
pub struct MetadataView {
    pub identifier: Seq<char>,
    pub title: Seq<char>,
    pub language: Seq<char>,
    pub creators: Seq<AuthorView>,
}

/// The authors of `authors`, as plain values.
pub open spec fn authors_view(authors: Seq<Author>) -> Seq<AuthorView> {
    Seq::new(authors.len(), |i: int| authors[i]@)
}

impl View for Metadata {
    type V = MetadataView;

    open spec fn view(&self) -> MetadataView {
        MetadataView {
            identifier: self.identifier@,
            title: self.title@,
            language: self.language@,
            creators: authors_view(self.creators@),
        }
    }
}

/// What the walk over a metadata element has gathered.
pub struct Gathered {
    pub identifier: Option<Seq<char>>,
    pub title: Option<Seq<char>>,
    pub language: Option<Seq<char>>,
    pub creators: Seq<AuthorView>,
}

/// The names in the text `raw` of a creator element: its parts between
/// ampersands where it holds one, else its parts between the word `and`.
pub open spec fn creator_names(raw: Seq<char>) -> Seq<Seq<char>> {
    if first_index_of(raw, '&') is Some {
        split_on(raw, seq!['&'], 0)
    } else {
        split_on(raw, seq![' ', 'a', 'n', 'd', ' '], 0)
    }
}

/// `creators` with the authors that the first `n` of `names` stand for.
pub open spec fn with_authors(creators: Seq<AuthorView>, names: Seq<Seq<char>>, n: int) -> Seq<AuthorView>
    decreases n,
{
    if n <= 0 || n > names.len() {
        creators
    } else {
        let before = with_authors(creators, names, n - 1);
        match author_of(names[n - 1]) {
            Some(a) => before.push(a),
            None => before,
        }
    }
}

/// The text that names the creators in a creator element: its `file-as`
/// in the namespace of the package document, else its text.
pub open spec fn creator_text(node: XmlTree) -> Option<Seq<char>> {
    match node.attr_ns("http://www.idpf.org/2007/opf"@, "file-as"@) {
        Some(v) => Some(v),
        None => node.text,
    }
}

/// `acc` after the child `node` of a metadata element: an identifier,
/// title or language element sets that field to its text, a creator
/// element adds its authors, and anything else changes nothing.
pub open spec fn gather(acc: Gathered, node: XmlTree) -> Gathered {
    if node.kind != NodeKind::Element {
        acc
    } else if node.name == "identifier"@ {
        Gathered { identifier: node.text, ..acc }
    } else if node.name == "title"@ {
        Gathered { title: node.text, ..acc }
    } else if node.name == "language"@ {
        Gathered { language: node.text, ..acc }
    } else if node.name == "creator"@ {
        match creator_text(node) {
            Some(raw) => Gathered {
                creators: with_authors(acc.creators, creator_names(raw), creator_names(raw).len() as int),
                ..acc
            },
            None => acc,
        }
    } else {
        acc
    }
}

/// What the first `k` of the children `nodes` of a metadata element
/// give.
pub open spec fn gathered(nodes: Seq<XmlTree>, k: int) -> Gathered
    decreases k,
{
    if k <= 0 || k > nodes.len() {
        Gathered { identifier: None, title: None, language: None, creators: Seq::empty() }
    } else {
        gather(gathered(nodes, k - 1), nodes[k - 1])
    }
}

/// The metadata that the metadata element `node` gives, or what it
/// lacks: an identifier, a title or a language, asked for in this order.
pub open spec fn metadata_of(node: XmlTree) -> Result<MetadataView, Fault> {
    let g = gathered(node.children, node.children.len() as int);
    match g.identifier {
        None => Err(bare(PackageErrorKind::MissingIdentifier)),
        Some(identifier) => match g.title {
            None => Err(bare(PackageErrorKind::MissingTitle)),
            Some(title) => match g.language {
                None => Err(bare(PackageErrorKind::MissingLanguage)),
                Some(language) => Ok(MetadataView { identifier, title, language, creators: g.creators }),
            },
        },
    }
}

/// The text of `node` as a string of its own.
fn owned_text(node: &XmlNode) -> (r: Option<String>)
    ensures
        crate::xml::opt_view(r) == node@.text,
{
    match node.text() {
        Some(t) => Some(t.to_owned()),
        None => None,
    }
}

/// Adds the authors that the text `raw` of a creator element names.
fn add_creators(creators: &mut Vec<Author>, raw: &str)
    ensures
        authors_view(final(creators)@) == with_authors(
            authors_view(old(creators)@),
            creator_names(raw@),
            creator_names(raw@).len() as int,
        ),
{
    let chars = chars_of(raw);
    let ampersand: Vec<char> = vec!['&'];
    let and: Vec<char> = vec![' ', 'a', 'n', 'd', ' '];
    proof {
        assert(ampersand@ == seq!['&']);
        assert(and@ == seq![' ', 'a', 'n', 'd', ' ']);
        lemma_first_index_of(chars@, '&');
    }
    let names = if find_first(&chars, '&').is_some() {
        split_at_each(&chars, &ampersand)
    } else {
        split_at_each(&chars, &and)
    };
    let ghost all = creator_names(raw@);
    let ghost start = authors_view(creators@);
    let mut i: usize = 0;
    while i < names.len()
        invariant
            i <= names.len(),
            names@.len() == all.len(),
            forall|k: int| 0 <= k < names@.len() ==> (#[trigger] names@[k])@ == all[k],
            authors_view(creators@) == with_authors(start, all, i as int),
        decreases names.len() - i,
    {
        let name = string_of(&names[i], 0, names[i].len());
        proof {
            assert(names@[i as int]@.subrange(0, names@[i as int]@.len() as int) == names@[i as int]@);
        }
        let ghost before = authors_view(creators@);
        match Author::parse(name.as_str()) {
            Some(author) => {
                creators.push(author);
                proof {
                    assert(authors_view(creators@) =~= before.push(author@));
                }
            },
            None => {},
        }
        i += 1;
    }
}

impl Metadata {
    /// Reads the metadata element `node`.
    pub fn parse(node: &XmlNode) -> (r: Result<Metadata, PackageError>)
        ensures
            (match metadata_of(node@) {
                Ok(m) => r matches Ok(parsed) && parsed@ == m,
                Err(fault) => r matches Err(e) && e@ == fault,
            }),
    {
        let mut identifier: Option<String> = None;
        let mut title: Option<String> = None;
        let mut language: Option<String> = None;
        let mut creators: Vec<Author> = Vec::new();
        let ghost nodes = node@.children;
        proof {
            assert(authors_view(creators@) =~= Seq::<AuthorView>::empty());
        }
        let mut i: usize = 0;
        while i < node.child_count()
            invariant
                i <= nodes.len(),
                nodes == node@.children,
                gathered(nodes, i as int) == (Gathered {
                    identifier: crate::xml::opt_view(identifier),
                    title: crate::xml::opt_view(title),
                    language: crate::xml::opt_view(language),
                    creators: authors_view(creators@),
                }),
            decreases nodes.len() - i,
        {
            let child = node.child(i);
            if child.is_element() {
                let tag = child.name();
                if str_eq(tag, "identifier") {
                    identifier = owned_text(child);
                } else if str_eq(tag, "title") {
                    title = owned_text(child);
                } else if str_eq(tag, "language") {
                    language = owned_text(child);
                } else if str_eq(tag, "creator") {
                    let raw = match child.attribute_ns("http://www.idpf.org/2007/opf", "file-as") {
                        Some(v) => Some(v),
                        None => child.text(),
                    };
                    match raw {
                        Some(raw) => {
                            add_creators(&mut creators, raw);
                        },
                        None => {},
                    }
                }
            }
            i += 1;
        }
        let identifier = match identifier {
            Some(v) => v,
            None => {
                return Err(PackageError::new(PackageErrorKind::MissingIdentifier, ""));
            },
        };
        let title = match title {
            Some(v) => v,
            None => {
                return Err(PackageError::new(PackageErrorKind::MissingTitle, ""));
            },
        };
        let language = match language {
            Some(v) => v,
            None => {
                return Err(PackageError::new(PackageErrorKind::MissingLanguage, ""));
            },
        };
        Ok(Metadata { identifier, title, language, creators })
    }
}

} // verus!
