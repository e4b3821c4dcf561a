//! A package as a whole: opened from the bytes of its container in two
//! steps, the metadata first and the rest after, and read chapter by
//! chapter.

use vstd::prelude::*;
use vstd::string::*;
use crate::archive::{archive_entry, Archive};
use crate::author::Author;
use crate::content::Content;
use crate::css::{reduced_rules, sheet_declarations, style_rules, CssAttribute};
use crate::epub::{
    bare, entries_view, index_by_path, lemma_index_by_path, manifest_of, ncx_of, same_index, spine_of, Fault,
    ItemView, Manifest, PackageError, PackageErrorKind, Spine, Toc, TocEntry, TocEntryView,
};
use crate::flatten::{blocks_are, body_walk, flatten, BlockView, Cascade};
use crate::link::{hyperlink_target, resolve};
use crate::metadata::{metadata_of, Metadata, MetadataView};
use crate::style::Align;
use crate::text::{chars_of, last_index_of, replace_all, replaced, split_last, string_of, texts};
use crate::toc::{manifest_lowered, nav_toc, ncx_toc, NcxContext};
use crate::xml::{opt_view, str_eq, NodeKind, XmlNode, XmlTree};
use crate::xml_parse::{parse_xml, parsed_xml};

verus! {

/// The first element with the tag `name` among `node` itself (for `k`
/// at 0) and what is below its first `k` children, in document order.
pub open spec fn find_tag(node: XmlTree, k: int, name: Seq<char>) -> Option<XmlTree>
    decreases node, k,
{
    if k <= 0 || k > node.children.len() {
        if node.kind == NodeKind::Element && node.name == name {
            Some(node)
        } else {
            None
        }
    } else {
        match find_tag(node, k - 1, name) {
            Some(found) => Some(found),
            None => {
                let child = node.children[k - 1];
                find_tag(child, child.children.len() as int, name)
            },
        }
    }
}

/// Once the element was found it stays the one found.
pub proof fn lemma_find_tag_stays(node: XmlTree, k: int, n: int, name: Seq<char>)
    requires
        0 <= k <= n <= node.children.len(),
        find_tag(node, k, name) is Some,
    ensures
        find_tag(node, n, name) == find_tag(node, k, name),
    decreases n - k,
{
    if k < n {
        lemma_find_tag_stays(node, k, n - 1, name);
    }
}

/// The first element with the tag `name` at or below `node`.
#[verifier::loop_isolation(false)]
fn find_descendant<'a>(node: &'a XmlNode, name: &str) -> (r: Option<&'a XmlNode>)
    ensures
        (match find_tag(node@, node@.children.len() as int, name@) {
            Some(found) => r matches Some(n) && n@ == found,
            None => r is None,
        }),
    decreases node@,
{
    let n = node.child_count();
    if node.has_tag_name(name) {
        proof {
            lemma_find_tag_stays(node@, 0, n as int, name@);
        }
        return Some(node);
    }
    let mut k: usize = 0;
    while k < n
        invariant
            k <= n == node@.children.len(),
            find_tag(node@, k as int, name@) is None,
        decreases n - k,
    {
        match find_descendant(node.child(k), name) {
            Some(found) => {
                proof {
                    lemma_find_tag_stays(node@, k + 1, n as int, name@);
                }
                return Some(found);
            },
            None => {},
        }
        k += 1;
    }
    None
}

/// The directory of the file at `path`: what stands before its last
/// slash.
pub open spec fn directory_of(path: Seq<char>) -> Seq<char> {
    match last_index_of(path, '/') {
        Some(i) => path.take(i),
        None => Seq::empty(),
    }
}

/// The name in the archive of the file at `path` from the directory
/// `root`. A path that starts with a slash stands for itself.
pub open spec fn entry_name(root: Seq<char>, path: Seq<char>) -> Seq<char> {
    if root.len() == 0 || (path.len() > 0 && path[0] == '/') {
        path
    } else {
        root + seq!['/'] + path
    }
}

/// The path of the package document that the container document names:
/// the `full-path` of its first `rootfile` element. The path must not
/// start at the root of the archive.
pub open spec fn rootfile_path(container: XmlTree) -> Result<Seq<char>, Fault> {
    match find_tag(container, container.children.len() as int, "rootfile"@) {
        None => Err(bare(PackageErrorKind::MissingRootfile)),
        Some(rootfile) => match rootfile.attr("full-path"@) {
            None => Err(bare(PackageErrorKind::RootfileMissingPath)),
            Some(path) => if path.len() > 0 && path[0] == '/' {
                Err(Fault { kind: PackageErrorKind::RootfilePathNotRelative, detail: path })
            } else {
                Ok(path)
            },
        },
    }
}

/// The schema generation that the package element `root` declares: the
/// first character of its version, which must be 2 or 3.
pub open spec fn version_of(root: XmlTree) -> Result<u8, Fault> {
    match root.attr("version"@) {
        None => Err(bare(PackageErrorKind::MissingVersion)),
        Some(v) => if v.len() > 0 && v[0] == '2' {
            Ok(2u8)
        } else if v.len() > 0 && v[0] == '3' {
            Ok(3u8)
        } else {
            Err(Fault { kind: PackageErrorKind::UnsupportedVersion, detail: v })
        },
    }
}

/// A package of which the metadata was read, as plain values.
pub struct PreviewView {
    pub archive: Seq<u8>,
    /// The directory of the package document.
    pub root: Seq<char>,
    pub metadata: MetadataView,
    pub version: u8,
    /// The package document.
    pub rootfile: XmlTree,
}

/// What the text of the entry `name` of the archive reads as, as a
/// document. A failure carries the words of the archive or of the
/// parser.
pub open spec fn entry_document(archive: Seq<u8>, name: Seq<char>) -> Result<XmlTree, Fault> {
    match archive_entry(archive, name) {
        Err(why) => Err(Fault { kind: PackageErrorKind::Archive, detail: why }),
        Ok(text) => match parsed_xml(text) {
            Err(failure) => Err(Fault { kind: PackageErrorKind::Xml, detail: failure.message }),
            Ok(tree) => Ok(tree),
        },
    }
}

/// What the package document `rootfile` gives for a preview: the
/// version, then the metadata, which is the first element of the package
/// element.
pub open spec fn preview_from(archive: Seq<u8>, path: Seq<char>, rootfile: XmlTree) -> Result<
    PreviewView,
    Fault,
> {
    match rootfile.element_child(0) {
        None => Err(bare(PackageErrorKind::MissingVersion)),
        Some(root) => match version_of(root) {
            Err(e) => Err(e),
            Ok(version) => match root.element_child(0) {
                None => Err(bare(PackageErrorKind::MissingMetadata)),
                Some(meta) => match metadata_of(meta) {
                    Err(e) => Err(e),
                    Ok(metadata) => Ok(
                        PreviewView { archive, root: directory_of(path), metadata, version, rootfile },
                    ),
                },
            },
        },
    }
}

/// The preview of the package whose container holds `archive`.
pub open spec fn preview_of(archive: Seq<u8>) -> Result<PreviewView, Fault> {
    match entry_document(archive, "META-INF/container.xml"@) {
        Err(e) => Err(e),
        Ok(container) => match rootfile_path(container) {
            Err(e) => Err(e),
            Ok(path) => match entry_document(archive, path) {
                Err(e) => Err(e),
                Ok(rootfile) => preview_from(archive, path, rootfile),
            },
        },
    }
}

/// A package, as plain values.
pub struct EpubView {
    pub archive: Seq<u8>,
    pub root: Seq<char>,
    pub manifest: Seq<ItemView>,
    pub metadata: MetadataView,
    pub spine: Seq<int>,
    pub toc: Seq<TocEntryView>,
}

/// The table of contents of a package of schema generation `version`
/// with this manifest and spine, where the manifest flags item `nav` as
/// the navigation document and the spine element names item `ncx` as the
/// legacy one. Generation 2 reads the legacy document, generation 3 the
/// other, and each needs its own to be named.
pub open spec fn toc_of(
    archive: Seq<u8>,
    root: Seq<char>,
    version: u8,
    items: Seq<ItemView>,
    spine: Seq<int>,
    nav: Option<int>,
    ncx: Option<int>,
) -> Result<Seq<TocEntryView>, Fault> {
    if version == 2 {
        match ncx {
            None => Err(bare(PackageErrorKind::MissingNcx)),
            Some(i) => if !(0 <= i < items.len()) {
                Err(bare(PackageErrorKind::MissingNcx))
            } else {
                match entry_document(archive, entry_name(root, items[i].path)) {
                    Err(e) => Err(e),
                    Ok(doc) => match ncx_toc(NcxContext { paths: manifest_lowered(items), spine }, doc) {
                        Err(e) => Err(e),
                        Ok(st) => Ok(st.entries),
                    },
                }
            },
        }
    } else if version == 3 {
        match nav {
            None => Err(bare(PackageErrorKind::MissingNav)),
            Some(i) => if !(0 <= i < items.len()) {
                Err(bare(PackageErrorKind::MissingNav))
            } else {
                match entry_document(archive, entry_name(root, items[i].path)) {
                    Err(e) => Err(e),
                    Ok(doc) => nav_toc(items, spine, i, doc),
                }
            },
        }
    } else {
        Err(bare(PackageErrorKind::UnsupportedVersion))
    }
}

/// The package that a preview opens into: the manifest is the second
/// element of the package element, the spine the third.
pub open spec fn package_of(p: PreviewView) -> Result<EpubView, Fault> {
    match p.rootfile.element_child(0) {
        None => Err(bare(PackageErrorKind::MissingManifest)),
        Some(root) => match root.element_child(1) {
            None => Err(bare(PackageErrorKind::MissingManifest)),
            Some(manifest_node) => match manifest_of(manifest_node.children) {
                Err(e) => Err(e),
                Ok(m) => match root.element_child(2) {
                    None => Err(bare(PackageErrorKind::MissingSpine)),
                    Some(spine_node) => match spine_of(m.items, spine_node.children) {
                        Err(e) => Err(e),
                        Ok(spine) => match toc_of(
                            p.archive,
                            p.root,
                            p.version,
                            m.items,
                            spine,
                            m.nav,
                            ncx_of(m.items, spine_node),
                        ) {
                            Err(e) => Err(e),
                            Ok(toc) => Ok(
                                EpubView {
                                    archive: p.archive,
                                    root: p.root,
                                    manifest: m.items,
                                    metadata: p.metadata,
                                    spine,
                                    toc,
                                },
                            ),
                        },
                    },
                },
            },
        },
    }
}

/// The package whose container holds `archive`.
pub open spec fn epub_of(archive: Seq<u8>) -> Result<EpubView, Fault> {
    match preview_of(archive) {
        Err(e) => Err(e),
        Ok(p) => package_of(p),
    }
}

/// The directory of the file at `path`.
pub fn parent_directory(path: &str) -> (r: String)
    ensures
        r@ == directory_of(path@),
{
    match split_last(path, '/') {
        Some((before, _)) => before,
        None => String::new(),
    }
}

/// The name in the archive of the file at `path` from the directory
/// `root`.
pub fn name_in_archive(root: &str, path: &str) -> (r: String)
    ensures
        r@ == entry_name(root@, path@),
{
    let chars = chars_of(path);
    if root.unicode_len() == 0 || (chars.len() > 0 && chars[0] == '/') {
        return path.to_owned();
    }
    let mut out = root.to_owned();
    out.push('/');
    out.append(path);
    out
}

/// Reads the entry `name` of the archive as a document.
fn read_document(archive: &Archive, name: &str) -> (r: Result<XmlNode, PackageError>)
    ensures
        (match entry_document(archive@, name@) {
            Ok(tree) => r matches Ok(node) && node@ == tree,
            Err(fault) => r matches Err(e) && e@ == fault,
        }),
{
    let text = match archive.read(name) {
        Ok(text) => text,
        Err(why) => {
            return Err(PackageError { kind: PackageErrorKind::Archive, detail: why });
        },
    };
    match parse_xml(text.as_str()) {
        Ok(node) => Ok(node),
        Err(e) => Err(PackageError { kind: PackageErrorKind::Xml, detail: e.message }),
    }
}

/// The path of the package document that the container document names.
pub fn container_rootfile(container: &XmlNode) -> (r: Result<String, PackageError>)
    ensures
        (match rootfile_path(container@) {
            Ok(path) => r matches Ok(p) && p@ == path,
            Err(fault) => r matches Err(e) && e@ == fault,
        }),
{
    let rootfile = match find_descendant(container, "rootfile") {
        Some(node) => node,
        None => {
            return Err(PackageError::new(PackageErrorKind::MissingRootfile, ""));
        },
    };
    let path = match rootfile.attribute("full-path") {
        Some(path) => path,
        None => {
            return Err(PackageError::new(PackageErrorKind::RootfileMissingPath, ""));
        },
    };
    let chars = chars_of(path);
    if chars.len() > 0 && chars[0] == '/' {
        return Err(PackageError::new(PackageErrorKind::RootfilePathNotRelative, path));
    }
    Ok(path.to_owned())
}

/// The schema generation that the package element `root` declares.
pub fn declared_version(root: &XmlNode) -> (r: Result<u8, PackageError>)
    ensures
        (match version_of(root@) {
            Ok(v) => r == Ok::<u8, PackageError>(v),
            Err(fault) => r matches Err(e) && e@ == fault,
        }),
{
    let version = match root.attribute("version") {
        Some(v) => v,
        None => {
            return Err(PackageError::new(PackageErrorKind::MissingVersion, ""));
        },
    };
    let chars = chars_of(version);
    if chars.len() > 0 && chars[0] == '2' {
        Ok(2)
    } else if chars.len() > 0 && chars[0] == '3' {
        Ok(3)
    } else {
        Err(PackageError::new(PackageErrorKind::UnsupportedVersion, version))
    }
}

/// A package of which only the metadata was read: enough to tell
/// whether it is the one looked for.
#[derive(Debug)]
pub struct EpubPreview {
    archive: Archive,
    root: String,
    metadata: Metadata,
    version: u8,
    rootfile: XmlNode,
}

impl View for EpubPreview {
    type V = PreviewView;

    closed spec fn view(&self) -> PreviewView {
        PreviewView {
            archive: self.archive@,
            root: self.root@,
            metadata: self.metadata@,
            version: self.version,
            rootfile: self.rootfile@,
        }
    }
}

/// A package: its metadata, its files, their reading order and its
/// table of contents.
#[derive(Debug)]
pub struct Epub {
    archive: Archive,
    root: String,
    manifest: Manifest,
    metadata: Metadata,
    spine: Spine,
    toc: Toc,
}

impl View for Epub {
    type V = EpubView;

    closed spec fn view(&self) -> EpubView {
        EpubView {
            archive: self.archive@,
            root: self.root@,
            manifest: self.manifest@,
            metadata: self.metadata@,
            spine: self.spine@,
            toc: self.toc@,
        }
    }
}

impl EpubPreview {
    /// Reads the metadata of the package in `archive`.
    pub fn open(archive: Archive) -> (r: Result<EpubPreview, PackageError>)
        ensures
            (match preview_of(archive@) {
                Ok(p) => r matches Ok(preview) && preview@ == p,
                Err(fault) => r matches Err(e) && e@ == fault,
            }),
    {
        let container = match read_document(&archive, "META-INF/container.xml") {
            Ok(doc) => doc,
            Err(e) => {
                return Err(e);
            },
        };
        let path = match container_rootfile(&container) {
            Ok(path) => path,
            Err(e) => {
                return Err(e);
            },
        };
        let rootfile = match read_document(&archive, path.as_str()) {
            Ok(doc) => doc,
            Err(e) => {
                return Err(e);
            },
        };
        EpubPreview::from_rootfile(archive, path.as_str(), rootfile)
    }

    /// Reads the metadata of a package from its package document
    /// `rootfile`, which lies at `path` in `archive`.
    pub fn from_rootfile(archive: Archive, path: &str, rootfile: XmlNode) -> (r: Result<EpubPreview, PackageError>)
        ensures
            (match preview_from(archive@, path@, rootfile@) {
                Ok(p) => r matches Ok(preview) && preview@ == p,
                Err(fault) => r matches Err(e) && e@ == fault,
            }),
    {
        let root = match rootfile.nth_element_child(0) {
            Some(root) => root,
            None => {
                return Err(PackageError::new(PackageErrorKind::MissingVersion, ""));
            },
        };
        let version = match declared_version(root) {
            Ok(v) => v,
            Err(e) => {
                return Err(e);
            },
        };
        let meta = match root.nth_element_child(0) {
            Some(meta) => meta,
            None => {
                return Err(PackageError::new(PackageErrorKind::MissingMetadata, ""));
            },
        };
        let metadata = match Metadata::parse(meta) {
            Ok(m) => m,
            Err(e) => {
                return Err(e);
            },
        };
        let root = parent_directory(path);
        Ok(EpubPreview { archive, root, metadata, version, rootfile })
    }

    /// The title of the book.
    pub fn title(&self) -> (r: &str)
        ensures
            r@ == self@.metadata.title,
    {
        self.metadata.title.as_str()
    }

    /// The first of the authors, if any is named.
    pub fn creator(&self) -> (r: Option<&Author>)
        ensures
            (match r {
                Some(a) => self@.metadata.creators.len() > 0 && a@ == self@.metadata.creators[0],
                None => self@.metadata.creators.len() == 0,
            }),
    {
        if self.metadata.creators.len() > 0 {
            Some(&self.metadata.creators[0])
        } else {
            None
        }
    }

    /// Reads the table of contents of the package.
    fn read_toc(&self, manifest: &Manifest, spine: &Spine, nav: Option<usize>, ncx: Option<usize>) -> (r: Result<
        Toc,
        PackageError,
    >)
        ensures
            (match toc_of(
                self@.archive,
                self@.root,
                self@.version,
                manifest@,
                spine@,
                match nav {
                    Some(i) => Some(i as int),
                    None => None,
                },
                match ncx {
                    Some(i) => Some(i as int),
                    None => None,
                },
            ) {
                Ok(toc) => r matches Ok(t) && t@ == toc,
                Err(fault) => r matches Err(e) && e@ == fault,
            }),
    {
        if self.version == 2 {
            let idx = match ncx {
                Some(i) => i,
                None => {
                    return Err(PackageError::new(PackageErrorKind::MissingNcx, ""));
                },
            };
            if idx >= manifest.items.len() {
                return Err(PackageError::new(PackageErrorKind::MissingNcx, ""));
            }
            let name = name_in_archive(self.root.as_str(), manifest.items[idx].path.as_str());
            let doc = match read_document(&self.archive, name.as_str()) {
                Ok(doc) => doc,
                Err(e) => {
                    return Err(e);
                },
            };
            Toc::parse_v2(manifest, spine, &doc)
        } else if self.version == 3 {
            let idx = match nav {
                Some(i) => i,
                None => {
                    return Err(PackageError::new(PackageErrorKind::MissingNav, ""));
                },
            };
            if idx >= manifest.items.len() {
                return Err(PackageError::new(PackageErrorKind::MissingNav, ""));
            }
            let name = name_in_archive(self.root.as_str(), manifest.items[idx].path.as_str());
            let doc = match read_document(&self.archive, name.as_str()) {
                Ok(doc) => doc,
                Err(e) => {
                    return Err(e);
                },
            };
            Toc::parse_v3(manifest, spine, idx, &doc)
        } else {
            Err(PackageError::new(PackageErrorKind::UnsupportedVersion, ""))
        }
    }

    /// Reads the rest of the package: its manifest, its spine and its
    /// table of contents.
    pub fn full(self) -> (r: Result<Epub, PackageError>)
        ensures
            (match package_of(self@) {
                Ok(e) => r matches Ok(epub) && epub@ == e,
                Err(fault) => r matches Err(e) && e@ == fault,
            }),
    {
        let root = match self.rootfile.nth_element_child(0) {
            Some(root) => root,
            None => {
                return Err(PackageError::new(PackageErrorKind::MissingManifest, ""));
            },
        };
        let manifest_node = match root.nth_element_child(1) {
            Some(node) => node,
            None => {
                return Err(PackageError::new(PackageErrorKind::MissingManifest, ""));
            },
        };
        let (manifest, nav) = match Manifest::parse(manifest_node) {
            Ok(parsed) => parsed,
            Err(e) => {
                return Err(e);
            },
        };
        let spine_node = match root.nth_element_child(2) {
            Some(node) => node,
            None => {
                return Err(PackageError::new(PackageErrorKind::MissingSpine, ""));
            },
        };
        let (spine, ncx) = match Spine::parse(&manifest, spine_node) {
            Ok(parsed) => parsed,
            Err(e) => {
                return Err(e);
            },
        };
        let toc = match self.read_toc(&manifest, &spine, nav, ncx) {
            Ok(toc) => toc,
            Err(e) => {
                return Err(e);
            },
        };
        Ok(Epub { archive: self.archive, root: self.root, manifest, metadata: self.metadata, spine, toc })
    }
}

/// What is wrong with a chapter.
#[derive(Debug, Clone, Copy, PartialEq, Eq, Structural)]
pub enum ContentErrorKind {
    /// An entry of the archive cannot be read.
    Archive,
    /// The chapter is not well-formed.
    Xml,
    /// The table of contents, the spine or the manifest has no such
    /// entry.
    NoSuchItem,
    MissingHead,
    MissingBody,
    /// A link to a style sheet says not where the sheet is.
    LinkWithoutHref,
    /// A link leads to no file of the manifest.
    BrokenHref,
    StyleWithoutText,
}

/// A failure to read a chapter: what is wrong, and the path or message
/// that says where.
#[derive(Debug)]
pub struct ContentError {
    pub kind: ContentErrorKind,
    pub detail: String,
}

/// A failure to read a chapter, as plain values.
pub struct ContentFault {
    pub kind: ContentErrorKind,
    pub detail: Seq<char>,
}

impl View for ContentError {
    type V = ContentFault;

    open spec fn view(&self) -> ContentFault {
        ContentFault { kind: self.kind, detail: self.detail@ }
    }
}

/// The failure of the kind `kind` that needs no detail.
pub open spec fn plain(kind: ContentErrorKind) -> ContentFault {
    ContentFault { kind, detail: ""@ }
}

impl ContentError {
    /// A failure of the kind `kind` with the detail `detail`.
    pub fn new(kind: ContentErrorKind, detail: &str) -> (r: ContentError)
        ensures
            r@ == (ContentFault { kind, detail: detail@ }),
    {
        ContentError { kind, detail: detail.to_owned() }
    }

    /// The failure in words.
    pub fn describe(&self) -> (r: String)
        ensures
            r@ == (if self.detail@.len() == 0 {
                describe_content(self.kind)
            } else {
                describe_content(self.kind) + ": "@ + self.detail@
            }),
    {
        let mut out = content_text(self.kind).to_owned();
        if self.detail.as_str().unicode_len() > 0 {
            out.append(": ");
            out.append(self.detail.as_str());
        }
        out
    }
}

/// What a kind of failure reads as.
pub open spec fn describe_content(kind: ContentErrorKind) -> Seq<char> {
    match kind {
        ContentErrorKind::Archive => "cannot read the archive"@,
        ContentErrorKind::Xml => "malformed chapter"@,
        ContentErrorKind::NoSuchItem => "no such chapter"@,
        ContentErrorKind::MissingHead => "missing head"@,
        ContentErrorKind::MissingBody => "missing body"@,
        ContentErrorKind::LinkWithoutHref => "stylesheet link without href"@,
        ContentErrorKind::BrokenHref => "broken epub href"@,
        ContentErrorKind::StyleWithoutText => "style tag without text"@,
    }
}

/// What a kind of failure reads as.
fn content_text(kind: ContentErrorKind) -> (r: &'static str)
    ensures
        r@ == describe_content(kind),
{
    match kind {
        ContentErrorKind::Archive => "cannot read the archive",
        ContentErrorKind::Xml => "malformed chapter",
        ContentErrorKind::NoSuchItem => "no such chapter",
        ContentErrorKind::MissingHead => "missing head",
        ContentErrorKind::MissingBody => "missing body",
        ContentErrorKind::LinkWithoutHref => "stylesheet link without href",
        ContentErrorKind::BrokenHref => "broken epub href",
        ContentErrorKind::StyleWithoutText => "style tag without text",
    }
}

/// The manifest item that entry `entry` of the table of contents leads
/// to, through the spine.
pub open spec fn chapter_item(e: EpubView, entry: int) -> Option<int> {
    if !(0 <= entry < e.toc.len()) {
        None
    } else if !(0 <= e.toc[entry].idx < e.spine.len()) {
        None
    } else if !(0 <= e.spine[e.toc[entry].idx] < e.manifest.len()) {
        None
    } else {
        Some(e.spine[e.toc[entry].idx])
    }
}

/// The document that the text of a chapter reads as. Where the text
/// fails for the entity `nbsp` alone, every `&nbsp;` is taken for a
/// space and the text is read once more. Any other failure stands.
pub open spec fn chapter_document(text: Seq<char>) -> Result<XmlTree, ContentFault> {
    match parsed_xml(text) {
        Ok(tree) => Ok(tree),
        Err(failure) => if failure.entity == Some("nbsp"@) {
            match parsed_xml(replaced(text, "&nbsp;"@, " "@)) {
                Ok(tree) => Ok(tree),
                Err(again) => Err(ContentFault { kind: ContentErrorKind::Xml, detail: again.message }),
            }
        } else {
            Err(ContentFault { kind: ContentErrorKind::Xml, detail: failure.message })
        },
    }
}

/// The manifest item that `href` leads to from item `item`.
pub open spec fn linked_item(manifest: Seq<ItemView>, item: int, href: Seq<char>) -> Option<int> {
    match hyperlink_target(manifest[item].path, href) {
        Some(target) => index_by_path(manifest, target),
        None => None,
    }
}

/// The style sheet that the child `node` of the head of item `item`
/// brings: the file that a `link` of the relation `stylesheet` leads to,
/// or the text of a `style` element of no type or of the type
/// `text/css`. Any other node brings none.
pub open spec fn sheet_of(e: EpubView, item: int, node: XmlTree) -> Result<Option<Seq<char>>, ContentFault> {
    if node.kind != NodeKind::Element {
        Ok(None)
    } else if node.name == "link"@ && node.attr("rel"@) == Some("stylesheet"@) {
        match node.attr("href"@) {
            None => Err(plain(ContentErrorKind::LinkWithoutHref)),
            Some(href) => match linked_item(e.manifest, item, href) {
                None => Err(ContentFault { kind: ContentErrorKind::BrokenHref, detail: href }),
                Some(css) => match archive_entry(e.archive, entry_name(e.root, e.manifest[css].path)) {
                    Err(why) => Err(ContentFault { kind: ContentErrorKind::Archive, detail: why }),
                    Ok(text) => Ok(Some(text)),
                },
            },
        }
    } else if node.name == "style"@ && (node.attr("type"@) is None || node.attr("type"@) == Some("text/css"@)) {
        match node.text {
            None => Err(plain(ContentErrorKind::StyleWithoutText)),
            Some(text) => Ok(Some(text)),
        }
    } else {
        Ok(None)
    }
}

/// The style sheets that the first `k` of the children `nodes` of the
/// head of item `item` bring, in their order.
pub open spec fn sheets_of(e: EpubView, item: int, nodes: Seq<XmlTree>, k: int) -> Result<
    Seq<Seq<char>>,
    ContentFault,
>
    decreases k,
{
    if k <= 0 || k > nodes.len() {
        Ok(Seq::empty())
    } else {
        match sheets_of(e, item, nodes, k - 1) {
            Err(err) => Err(err),
            Ok(before) => match sheet_of(e, item, nodes[k - 1]) {
                Err(err) => Err(err),
                Ok(Some(sheet)) => Ok(before.push(sheet)),
                Ok(None) => Ok(before),
            },
        }
    }
}

/// Once the sheets have failed they stay failed.
pub proof fn lemma_sheets_stay(e: EpubView, item: int, nodes: Seq<XmlTree>, k: int, n: int)
    requires
        0 <= k <= n <= nodes.len(),
        sheets_of(e, item, nodes, k) is Err,
    ensures
        sheets_of(e, item, nodes, n) == sheets_of(e, item, nodes, k),
    decreases n - k,
{
    if k < n {
        lemma_sheets_stay(e, item, nodes, k, n - 1);
    }
}

/// A chapter ready to be flattened, as plain values.
pub struct ChapterView {
    pub document: XmlTree,
    pub stylesheets: Seq<Seq<char>>,
    pub rules: Seq<(usize, CssAttribute)>,
}

/// The chapter that `document` and the style sheets of its head make,
/// where the document is item `item` of the package.
pub open spec fn chapter_from(e: EpubView, item: int, document: XmlTree) -> Result<ChapterView, ContentFault> {
    match document.element_child(0) {
        None => Err(plain(ContentErrorKind::MissingHead)),
        Some(root) => match root.element_child(0) {
            None => Err(plain(ContentErrorKind::MissingHead)),
            Some(head) => match root.element_child(1) {
                None => Err(plain(ContentErrorKind::MissingBody)),
                Some(_body) => match sheets_of(e, item, head.children, head.children.len() as int) {
                    Err(err) => Err(err),
                    Ok(stylesheets) => Ok(
                        ChapterView {
                            document,
                            stylesheets,
                            rules: reduced_rules(
                                sheet_declarations(stylesheets),
                                sheet_declarations(stylesheets).len() as int,
                            ),
                        },
                    ),
                },
            },
        },
    }
}

/// The chapter that entry `entry` of the table of contents leads to.
pub open spec fn chapter_of(e: EpubView, entry: int) -> Result<ChapterView, ContentFault> {
    match chapter_item(e, entry) {
        None => Err(plain(ContentErrorKind::NoSuchItem)),
        Some(item) => match archive_entry(e.archive, entry_name(e.root, e.manifest[item].path)) {
            Err(why) => Err(ContentFault { kind: ContentErrorKind::Archive, detail: why }),
            Ok(text) => match chapter_document(text) {
                Err(err) => Err(err),
                Ok(document) => chapter_from(e, item, document),
            },
        },
    }
}

/// The body of a chapter document: the second element of its root
/// element.
pub open spec fn body_of(document: XmlTree) -> Option<XmlTree> {
    match document.element_child(0) {
        Some(root) => root.element_child(1),
        None => None,
    }
}

/// The blocks of a chapter under the table `matched` of nodes and
/// rules.
pub open spec fn chapter_blocks(c: ChapterView, matched: Seq<Vec<bool>>) -> Seq<BlockView> {
    match body_of(c.document) {
        Some(body) => body_walk(
            body,
            body.children.len() as int,
            Cascade { rules: c.rules, matched },
            0,
            None,
            Seq::empty(),
        ),
        None => Seq::empty(),
    }
}

/// Reads the text of a chapter as a document.
pub fn parse_chapter(text: &str) -> (r: Result<XmlNode, ContentError>)
    ensures
        (match chapter_document(text@) {
            Ok(tree) => r matches Ok(node) && node@ == tree,
            Err(fault) => r matches Err(e) && e@ == fault,
        }),
{
    let failure = match parse_xml(text) {
        Ok(node) => {
            return Ok(node);
        },
        Err(failure) => failure,
    };
    let retry = match &failure.entity {
        Some(name) => str_eq(name.as_str(), "nbsp"),
        None => false,
    };
    if !retry {
        return Err(ContentError { kind: ContentErrorKind::Xml, detail: failure.message });
    }
    let entity = chars_of("&nbsp;");
    let space = chars_of(" ");
    proof {
        reveal_strlit("&nbsp;");
    }
    let chars = replace_all(&chars_of(text), &entity, &space);
    let fixed = string_of(&chars, 0, chars.len());
    proof {
        assert(chars@.subrange(0, chars.len() as int) == chars@);
    }
    match parse_xml(fixed.as_str()) {
        Ok(node) => Ok(node),
        Err(again) => Err(ContentError { kind: ContentErrorKind::Xml, detail: again.message }),
    }
}

/// A chapter ready to be flattened: its document, the texts of its
/// style sheets, and the rules reduced from them.
#[derive(Debug)]
pub struct Chapter {
    document: XmlNode,
    stylesheets: Vec<String>,
    rules: Vec<(usize, CssAttribute)>,
}

impl View for Chapter {
    type V = ChapterView;

    closed spec fn view(&self) -> ChapterView {
        ChapterView { document: self.document@, stylesheets: texts(self.stylesheets@), rules: self.rules@ }
    }
}

impl Chapter {
    /// The document of the chapter.
    pub fn document(&self) -> (r: &XmlNode)
        ensures
            r@ == self@.document,
    {
        &self.document
    }

    /// The texts of the style sheets of the chapter, in the order in
    /// which they are parsed into one sheet.
    pub fn stylesheets(&self) -> (r: &Vec<String>)
        ensures
            texts(r@) == self@.stylesheets,
    {
        &self.stylesheets
    }

    /// The reduced rules of the style sheets.
    pub fn rules(&self) -> (r: &Vec<(usize, CssAttribute)>)
        ensures
            r@ == self@.rules,
    {
        &self.rules
    }

    /// The blocks of the chapter, in document order, each with its
    /// alignment. `matched[n][r]` says whether the selector of rule `r`
    /// of the chapter's sheet matches node `n` of its document.
    pub fn flatten(&self, matched: &Vec<Vec<bool>>) -> (r: Vec<(Content, Option<Align>)>)
        ensures
            blocks_are(r@, chapter_blocks(self@, matched@)),
    {
        let body = match self.document.nth_element_child(0) {
            Some(root) => root.nth_element_child(1),
            None => None,
        };
        match body {
            Some(body) => flatten(body, &self.rules, matched),
            None => Vec::new(),
        }
    }
}

impl Epub {
    /// Opens the package whose container holds `bytes`.
    pub fn from_bytes(bytes: Vec<u8>) -> (r: Result<Epub, PackageError>)
        ensures
            (match epub_of(bytes@) {
                Ok(e) => r matches Ok(epub) && epub@ == e,
                Err(fault) => r matches Err(e) && e@ == fault,
            }),
    {
        match EpubPreview::open(Archive::new(bytes)) {
            Ok(preview) => preview.full(),
            Err(e) => Err(e),
        }
    }

    /// The title of the book.
    pub fn name(&self) -> (r: &str)
        ensures
            r@ == self@.metadata.title,
    {
        self.metadata.title.as_str()
    }

    /// The title of the book.
    pub fn title(&self) -> (r: &str)
        ensures
            r@ == self@.metadata.title,
    {
        self.metadata.title.as_str()
    }

    /// The first of the authors, if any is named.
    pub fn author(&self) -> (r: Option<&Author>)
        ensures
            (match r {
                Some(a) => self@.metadata.creators.len() > 0 && a@ == self@.metadata.creators[0],
                None => self@.metadata.creators.len() == 0,
            }),
    {
        if self.metadata.creators.len() > 0 {
            Some(&self.metadata.creators[0])
        } else {
            None
        }
    }

    /// The entries of the table of contents, in order.
    pub fn chapters(&self) -> (r: &Vec<TocEntry>)
        ensures
            entries_view(r@) == self@.toc,
    {
        self.toc.entries()
    }

    /// How many entries the table of contents holds.
    pub fn chapter_count(&self) -> (r: usize)
        ensures
            r == self@.toc.len(),
    {
        self.toc.len()
    }

    /// The manifest item that entry `entry` of the table of contents
    /// leads to.
    fn chapter_item(&self, entry: usize) -> (r: Option<usize>)
        ensures
            same_index(r, chapter_item(self@, entry as int)),
    {
        let entries = self.toc.entries();
        if entry >= entries.len() {
            return None;
        }
        let idx = entries[entry].idx();
        proof {
            assert(entries_view(entries@)[entry as int] == entries@[entry as int]@);
        }
        let spine = self.spine.manifest_indices();
        if idx >= spine.len() {
            return None;
        }
        let item = spine[idx];
        if item >= self.manifest.items.len() {
            return None;
        }
        Some(item)
    }

    /// The text of the manifest item `item`.
    fn retrieve(&self, item: usize) -> (r: Result<String, String>)
        requires
            item < self@.manifest.len(),
        ensures
            (match archive_entry(self@.archive, entry_name(self@.root, self@.manifest[item as int].path)) {
                Ok(t) => r matches Ok(text) && text@ == t,
                Err(w) => r matches Err(why) && why@ == w,
            }),
    {
        let name = name_in_archive(self.root.as_str(), self.manifest.items[item].path.as_str());
        self.archive.read(name.as_str())
    }

    /// The manifest item that `href` leads to from item `item`.
    pub fn resolve_hyperlink(&self, item: usize, href: &str) -> (r: Option<usize>)
        requires
            item < self@.manifest.len(),
        ensures
            same_index(r, linked_item(self@.manifest, item as int, href@)),
    {
        match resolve(self.manifest.items[item].path.as_str(), href) {
            Some(target) => self.manifest.item_idx(target.as_str()),
            None => None,
        }
    }

    /// The style sheet that the child `node` of the head of item `item`
    /// brings.
    fn stylesheet(&self, item: usize, node: &XmlNode) -> (r: Result<Option<String>, ContentError>)
        requires
            item < self@.manifest.len(),
        ensures
            (match sheet_of(self@, item as int, node@) {
                Ok(sheet) => r matches Ok(s) && opt_view(s) == sheet,
                Err(fault) => r matches Err(e) && e@ == fault,
            }),
    {
        if !node.is_element() {
            return Ok(None);
        }
        let tag = node.name();
        let is_link = str_eq(tag, "link") && match node.attribute("rel") {
            Some(rel) => str_eq(rel, "stylesheet"),
            None => false,
        };
        if is_link {
            let href = match node.attribute("href") {
                Some(href) => href,
                None => {
                    return Err(ContentError::new(ContentErrorKind::LinkWithoutHref, ""));
                },
            };
            let css = match self.resolve_hyperlink(item, href) {
                Some(css) => css,
                None => {
                    return Err(ContentError::new(ContentErrorKind::BrokenHref, href));
                },
            };
            proof {
                lemma_index_by_path(
                    self@.manifest,
                    hyperlink_target(self@.manifest[item as int].path, href@)->0,
                );
            }
            return match self.retrieve(css) {
                Ok(text) => Ok(Some(text)),
                Err(why) => Err(ContentError { kind: ContentErrorKind::Archive, detail: why }),
            };
        }
        let is_style = str_eq(tag, "style") && match node.attribute("type") {
            Some(t) => str_eq(t, "text/css"),
            None => true,
        };
        if is_style {
            return match node.text() {
                Some(text) => Ok(Some(text.to_owned())),
                None => Err(ContentError::new(ContentErrorKind::StyleWithoutText, "")),
            };
        }
        Ok(None)
    }

    /// The chapter that `document` makes, where the document is item
    /// `item` of the manifest: its head is searched for style sheets,
    /// which are read and reduced to their rules.
    #[verifier::loop_isolation(false)]
    pub fn chapter_with(&self, item: usize, document: XmlNode) -> (r: Result<Chapter, ContentError>)
        requires
            item < self@.manifest.len(),
        ensures
            (match chapter_from(self@, item as int, document@) {
                Ok(c) => r matches Ok(chapter) && chapter@ == c,
                Err(fault) => r matches Err(e) && e@ == fault,
            }),
    {
        let root = match document.nth_element_child(0) {
            Some(root) => root,
            None => {
                return Err(ContentError::new(ContentErrorKind::MissingHead, ""));
            },
        };
        let head = match root.nth_element_child(0) {
            Some(head) => head,
            None => {
                return Err(ContentError::new(ContentErrorKind::MissingHead, ""));
            },
        };
        if root.nth_element_child(1).is_none() {
            return Err(ContentError::new(ContentErrorKind::MissingBody, ""));
        }
        let mut stylesheets: Vec<String> = Vec::new();
        let ghost nodes = head@.children;
        proof {
            assert(texts(stylesheets@) =~= Seq::<Seq<char>>::empty());
        }
        let n = head.child_count();
        let mut k: usize = 0;
        while k < n
            invariant
                k <= n == nodes.len(),
                sheets_of(self@, item as int, nodes, k as int) matches Ok(sheets) && texts(stylesheets@)
                    == sheets,
            decreases n - k,
        {
            let ghost before = texts(stylesheets@);
            match self.stylesheet(item, head.child(k)) {
                Ok(Some(sheet)) => {
                    stylesheets.push(sheet);
                    proof {
                        assert(texts(stylesheets@) =~= before.push(sheet@));
                    }
                },
                Ok(None) => {},
                Err(e) => {
                    proof {
                        lemma_sheets_stay(self@, item as int, nodes, k + 1, n as int);
                    }
                    return Err(e);
                },
            }
            k += 1;
        }
        let rules = style_rules(&stylesheets);
        Ok(Chapter { document, stylesheets, rules })
    }

    /// Reads the chapter that entry `entry` of the table of contents
    /// leads to: its document, its style sheets and their rules.
    pub fn chapter(&self, entry: usize) -> (r: Result<Chapter, ContentError>)
        ensures
            (match chapter_of(self@, entry as int) {
                Ok(c) => r matches Ok(chapter) && chapter@ == c,
                Err(fault) => r matches Err(e) && e@ == fault,
            }),
    {
        let item = match self.chapter_item(entry) {
            Some(item) => item,
            None => {
                return Err(ContentError::new(ContentErrorKind::NoSuchItem, ""));
            },
        };
        let text = match self.retrieve(item) {
            Ok(text) => text,
            Err(why) => {
                return Err(ContentError { kind: ContentErrorKind::Archive, detail: why });
            },
        };
        let document = match parse_chapter(text.as_str()) {
            Ok(document) => document,
            Err(e) => {
                return Err(e);
            },
        };
        self.chapter_with(item, document)
    }
}

impl Epub {
    /// Flattens the chapter that entry `entry` of the table of contents
    /// leads to into its blocks, each with its alignment. Which selector
    /// of the chapter's style sheets matches which node of its document
    /// is asked of `matcher`: it is handed the chapter and answers with
    /// the table that [`Chapter::flatten`] takes.
    pub fn traverse<F: Fn(&Chapter) -> Vec<Vec<bool>>>(&self, entry: usize, matcher: F) -> (r: Result<
        Vec<(Content, Option<Align>)>,
        ContentError,
    >)
        requires
            forall|c: &Chapter| call_requires(matcher, (c,)),
        ensures
            (match chapter_of(self@, entry as int) {
                Ok(c) => r matches Ok(blocks) && exists|chapter: Chapter, matched: Vec<Vec<bool>>|
                    chapter@ == c && call_ensures(matcher, (&chapter,), matched) && blocks_are(
                        blocks@,
                        chapter_blocks(c, matched@),
                    ),
                Err(fault) => r matches Err(e) && e@ == fault,
            }),
    {
        let chapter = match self.chapter(entry) {
            Ok(chapter) => chapter,
            Err(e) => {
                return Err(e);
            },
        };
        let matched = matcher(&chapter);
        let blocks = chapter.flatten(&matched);
        Ok(blocks)
    }
}

} // verus!
