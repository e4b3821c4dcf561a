//! The package model: the manifest of a package, its spine and its
//! metadata, read from the package document.

use vstd::prelude::*;
use crate::xml::{str_eq, NodeKind, XmlNode, XmlTree};

verus! {

/// What is wrong with a package.
#[derive(Debug, Clone, Copy, PartialEq, Eq, Structural)]
pub enum PackageErrorKind {
    /// The container is no zip archive, or an entry cannot be read.
    Archive,
    /// A document of the package is not well-formed.
    Xml,
    MissingRootfile,
    RootfileMissingPath,
    RootfilePathNotRelative,
    MissingVersion,
    UnsupportedVersion,
    MissingMetadata,
    MissingIdentifier,
    MissingTitle,
    MissingLanguage,
    MissingManifest,
    ManifestItemMissingId,
    ManifestItemMissingHref,
    ManifestItemMissingMime,
    MissingSpine,
    /// A spine entry names no manifest item.
    InvalidSpine,
    /// The spine of a version 2 package names no navigation document.
    MissingNcx,
    /// The manifest of a version 3 package flags no navigation document.
    MissingNav,
    TocMissingHead,
    TocMissingBody,
    TocMissingNav,
    TocMissingList,
    TocMissingNavMap,
    /// The path of the navigation document makes no URL.
    TocBadLocation,
    InvalidTocItem,
    TocItemMissingHref,
    TocItemMissingName,
    /// An entry of the table of contents points to no manifest item.
    TocReferenceNotInManifest,
    /// An entry of the table of contents points to an item outside the
    /// spine.
    TocReferenceNotInSpine,
    InvalidPlayOrder,
    NavPointMissingName,
    NavPointMissingSrc,
}

/// A failure to read a package: what is wrong, and the identifier, path
/// or message that says where.
#[derive(Debug)]
pub struct PackageError {
    pub kind: PackageErrorKind,
    pub detail: String,
}

/// A failure to read a package, as plain values.
pub struct Fault {
    pub kind: PackageErrorKind,
    pub detail: Seq<char>,
}

impl View for PackageError {
    type V = Fault;

    open spec fn view(&self) -> Fault {
        Fault { kind: self.kind, detail: self.detail@ }
    }
}

/// The failure of the kind `kind` that needs no detail.
pub open spec fn bare(kind: PackageErrorKind) -> Fault {
    Fault { kind, detail: ""@ }
}

impl PackageError {
    /// A failure of the kind `kind` with the detail `detail`.
    pub fn new(kind: PackageErrorKind, detail: &str) -> (r: PackageError)
        ensures
            r@ == (Fault { kind, detail: detail@ }),
    {
        PackageError { kind, detail: detail.to_owned() }
    }

    /// The failure in words.
    pub fn describe(&self) -> (r: String)
        ensures
            r@ == (if self.detail@.len() == 0 {
                describe_kind(self.kind)
            } else {
                describe_kind(self.kind) + ": "@ + self.detail@
            }),
    {
        let mut out = kind_text(self.kind).to_owned();
        if self.detail.as_str().unicode_len() > 0 {
            out.append(": ");
            out.append(self.detail.as_str());
        }
        out
    }
}

/// What a kind of failure reads as.
pub open spec fn describe_kind(kind: PackageErrorKind) -> Seq<char> {
    match kind {
        PackageErrorKind::Archive => "cannot read the archive"@,
        PackageErrorKind::Xml => "malformed document"@,
        PackageErrorKind::MissingRootfile => "missing rootfile"@,
        PackageErrorKind::RootfileMissingPath => "rootfile missing path"@,
        PackageErrorKind::RootfilePathNotRelative => "rootfile path not relative"@,
        PackageErrorKind::MissingVersion => "rootfile missing version"@,
        PackageErrorKind::UnsupportedVersion => "unsupported epub version (supported versions are 2, 3)"@,
        PackageErrorKind::MissingMetadata => "rootfile missing metadata"@,
        PackageErrorKind::MissingIdentifier => "missing identifier"@,
        PackageErrorKind::MissingTitle => "missing title"@,
        PackageErrorKind::MissingLanguage => "missing language"@,
        PackageErrorKind::MissingManifest => "rootfile missing manifest"@,
        PackageErrorKind::ManifestItemMissingId => "manifest item missing id"@,
        PackageErrorKind::ManifestItemMissingHref => "manifest item missing href"@,
        PackageErrorKind::ManifestItemMissingMime => "manifest item missing mime"@,
        PackageErrorKind::MissingSpine => "rootfile missing spine"@,
        PackageErrorKind::InvalidSpine => "invalid spine"@,
        PackageErrorKind::MissingNcx => "missing ncx idx"@,
        PackageErrorKind::MissingNav => "missing toc idx"@,
        PackageErrorKind::TocMissingHead => "toc missing head"@,
        PackageErrorKind::TocMissingBody => "toc missing body"@,
        PackageErrorKind::TocMissingNav => "toc missing nav"@,
        PackageErrorKind::TocMissingList => "toc missing navlist"@,
        PackageErrorKind::TocMissingNavMap => "toc missing nav map"@,
        PackageErrorKind::TocBadLocation => "toc location is no url"@,
        PackageErrorKind::InvalidTocItem => "invalid toc item"@,
        PackageErrorKind::TocItemMissingHref => "toc item missing href"@,
        PackageErrorKind::TocItemMissingName => "toc item missing name"@,
        PackageErrorKind::TocReferenceNotInManifest => "toc reference missing in manifest"@,
        PackageErrorKind::TocReferenceNotInSpine => "toc reference missing in spine"@,
        PackageErrorKind::InvalidPlayOrder => "invalid play order"@,
        PackageErrorKind::NavPointMissingName => "nav point is missing valid name"@,
        PackageErrorKind::NavPointMissingSrc => "nav point is missing src attribute"@,
    }
}

/// What a kind of failure reads as.
fn kind_text(kind: PackageErrorKind) -> (r: &'static str)
    ensures
        r@ == describe_kind(kind),
{
    match kind {
        PackageErrorKind::Archive => "cannot read the archive",
        PackageErrorKind::Xml => "malformed document",
        PackageErrorKind::MissingRootfile => "missing rootfile",
        PackageErrorKind::RootfileMissingPath => "rootfile missing path",
        PackageErrorKind::RootfilePathNotRelative => "rootfile path not relative",
        PackageErrorKind::MissingVersion => "rootfile missing version",
        PackageErrorKind::UnsupportedVersion => "unsupported epub version (supported versions are 2, 3)",
        PackageErrorKind::MissingMetadata => "rootfile missing metadata",
        PackageErrorKind::MissingIdentifier => "missing identifier",
        PackageErrorKind::MissingTitle => "missing title",
        PackageErrorKind::MissingLanguage => "missing language",
        PackageErrorKind::MissingManifest => "rootfile missing manifest",
        PackageErrorKind::ManifestItemMissingId => "manifest item missing id",
        PackageErrorKind::ManifestItemMissingHref => "manifest item missing href",
        PackageErrorKind::ManifestItemMissingMime => "manifest item missing mime",
        PackageErrorKind::MissingSpine => "rootfile missing spine",
        PackageErrorKind::InvalidSpine => "invalid spine",
        PackageErrorKind::MissingNcx => "missing ncx idx",
        PackageErrorKind::MissingNav => "missing toc idx",
        PackageErrorKind::TocMissingHead => "toc missing head",
        PackageErrorKind::TocMissingBody => "toc missing body",
        PackageErrorKind::TocMissingNav => "toc missing nav",
        PackageErrorKind::TocMissingList => "toc missing navlist",
        PackageErrorKind::TocMissingNavMap => "toc missing nav map",
        PackageErrorKind::TocBadLocation => "toc location is no url",
        PackageErrorKind::InvalidTocItem => "invalid toc item",
        PackageErrorKind::TocItemMissingHref => "toc item missing href",
        PackageErrorKind::TocItemMissingName => "toc item missing name",
        PackageErrorKind::TocReferenceNotInManifest => "toc reference missing in manifest",
        PackageErrorKind::TocReferenceNotInSpine => "toc reference missing in spine",
        PackageErrorKind::InvalidPlayOrder => "invalid play order",
        PackageErrorKind::NavPointMissingName => "nav point is missing valid name",
        PackageErrorKind::NavPointMissingSrc => "nav point is missing src attribute",
    }
}

/// One file of the package, as the manifest lists it.
#[derive(Debug)]
pub struct Item {
    /// The identifier that the spine names the item by.
    pub name: String,
    /// Where the file lies, from the directory of the package document.
    pub path: String,
    pub mime: String,
}

/// A manifest item as plain values.
pub struct ItemView {
    pub name: Seq<char>,
    pub path: Seq<char>,
    pub mime: Seq<char>,
}

impl View for Item {
    type V = ItemView;

    open spec fn view(&self) -> ItemView {
        ItemView { name: self.name@, path: self.path@, mime: self.mime@ }
    }
}

/// The files of a package, in the order of the package document.
#[derive(Debug)]
pub struct Manifest {
    pub items: Vec<Item>,
}

impl View for Manifest {
    type V = Seq<ItemView>;

    open spec fn view(&self) -> Seq<ItemView> {
        Seq::new(self.items@.len(), |i: int| self.items@[i]@)
    }
}

/// What a manifest element holds: the items, and the index of the last
/// item flagged as the navigation document.
pub struct ManifestView {
    pub items: Seq<ItemView>,
    pub nav: Option<int>,
}

/// The manifest item that the element `node` lists, or what it lacks:
/// its id, its href or its media type, asked for in this order. The
/// failure names the item by its id where it has one.
pub open spec fn item_of(node: XmlTree) -> Result<ItemView, Fault> {
    match node.attr("id"@) {
        None => Err(bare(PackageErrorKind::ManifestItemMissingId)),
        Some(name) => match node.attr("href"@) {
            None => Err(Fault { kind: PackageErrorKind::ManifestItemMissingHref, detail: name }),
            Some(path) => match node.attr("media-type"@) {
                None => Err(Fault { kind: PackageErrorKind::ManifestItemMissingMime, detail: name }),
                Some(mime) => Ok(ItemView { name, path, mime }),
            },
        },
    }
}

/// The manifest that the child nodes `children` of a manifest element
/// list. Every element among them must be an item; the first that is
/// none fails the whole.
pub open spec fn manifest_of(children: Seq<XmlTree>) -> Result<ManifestView, Fault>
    decreases children.len(),
{
    if children.len() == 0 {
        Ok(ManifestView { items: Seq::empty(), nav: None })
    } else {
        match manifest_of(children.drop_last()) {
            Err(e) => Err(e),
            Ok(before) => {
                let node = children.last();
                if node.kind != NodeKind::Element {
                    Ok(before)
                } else {
                    match item_of(node) {
                        Err(e) => Err(e),
                        Ok(item) => Ok(
                            ManifestView {
                                items: before.items.push(item),
                                nav: if node.attr("properties"@) == Some("nav"@) {
                                    Some(before.items.len() as int)
                                } else {
                                    before.nav
                                },
                            },
                        ),
                    }
                }
            },
        }
    }
}

/// Index of the first of `items` that lies at `path`.
pub open spec fn index_by_path(items: Seq<ItemView>, path: Seq<char>) -> Option<int>
    decreases items.len(),
{
    if items.len() == 0 {
        None
    } else if items[0].path == path {
        Some(0)
    } else {
        match index_by_path(items.drop_first(), path) {
            Some(i) => Some(i + 1),
            None => None,
        }
    }
}

/// Index of the first of `items` with the identifier `name`.
pub open spec fn index_by_name(items: Seq<ItemView>, name: Seq<char>) -> Option<int>
    decreases items.len(),
{
    if items.len() == 0 {
        None
    } else if items[0].name == name {
        Some(0)
    } else {
        match index_by_name(items.drop_first(), name) {
            Some(i) => Some(i + 1),
            None => None,
        }
    }
}

/// The index of an item by its identifier is the index of an item with
/// that identifier.
pub proof fn lemma_index_by_name(items: Seq<ItemView>, name: Seq<char>)
    ensures
        index_by_name(items, name) matches Some(i) ==> 0 <= i < items.len() && items[i].name == name,
    decreases items.len(),
{
    if items.len() > 0 && items[0].name != name {
        lemma_index_by_name(items.drop_first(), name);
    }
}

/// The index of an item by its path is the index of an item at that
/// path.
pub proof fn lemma_index_by_path(items: Seq<ItemView>, path: Seq<char>)
    ensures
        index_by_path(items, path) matches Some(i) ==> 0 <= i < items.len() && items[i].path == path,
    decreases items.len(),
{
    if items.len() > 0 && items[0].path != path {
        lemma_index_by_path(items.drop_first(), path);
    }
}

/// The same index, as a machine number or as an integer.
pub open spec fn same_index(a: Option<usize>, b: Option<int>) -> bool {
    match b {
        Some(i) => a == Some(i as usize) && 0 <= i <= usize::MAX,
        None => a is None,
    }
}

impl Manifest {
    /// Reads the manifest element `node`: the items, and the index of the
    /// item flagged as the navigation document, if any.
    pub fn parse(node: &XmlNode) -> (r: Result<(Manifest, Option<usize>), PackageError>)
        ensures
            (match manifest_of(node@.children) {
                Ok(m) => r matches Ok(parsed) && parsed.0@ == m.items && same_index(parsed.1, m.nav),
                Err(fault) => r matches Err(e) && e@ == fault,
            }),
    {
        let mut items: Vec<Item> = Vec::new();
        let mut toc: Option<usize> = None;
        let ghost nodes = node@.children;
        let mut i: usize = 0;
        while i < node.child_count()
            invariant
                i <= nodes.len(),
                nodes == node@.children,
                manifest_of(nodes.take(i as int)) matches Ok(m) && (Manifest { items })@ == m.items && same_index(
                    toc,
                    m.nav,
                ),
            decreases nodes.len() - i,
        {
            let child = node.child(i);
            let ghost before = (Manifest { items })@;
            proof {
                assert(nodes.take(i + 1).drop_last() == nodes.take(i as int));
                assert(nodes.take(i + 1).last() == child@);
            }
            if child.is_element() {
                let name = match child.attribute("id") {
                    Some(v) => v.to_owned(),
                    None => {
                        proof {
                            lemma_manifest_fails(nodes, i + 1);
                        }
                        return Err(PackageError::new(PackageErrorKind::ManifestItemMissingId, ""));
                    },
                };
                let path = match child.attribute("href") {
                    Some(v) => v.to_owned(),
                    None => {
                        proof {
                            lemma_manifest_fails(nodes, i + 1);
                        }
                        return Err(PackageError::new(PackageErrorKind::ManifestItemMissingHref, name.as_str()));
                    },
                };
                let mime = match child.attribute("media-type") {
                    Some(v) => v.to_owned(),
                    None => {
                        proof {
                            lemma_manifest_fails(nodes, i + 1);
                        }
                        return Err(PackageError::new(PackageErrorKind::ManifestItemMissingMime, name.as_str()));
                    },
                };
                match child.attribute("properties") {
                    Some(v) => {
                        if str_eq(v, "nav") {
                            toc = Some(items.len());
                        }
                    },
                    None => {},
                }
                items.push(Item { name, path, mime });
                proof {
                    assert((Manifest { items })@ =~= before.push(item_of(child@)->Ok_0));
                }
            }
            i += 1;
        }
        proof {
            assert(nodes.take(nodes.len() as int) == nodes);
        }
        Ok((Manifest { items }, toc))
    }

    /// Index of the first item that lies at `path`.
    pub fn item_idx(&self, path: &str) -> (r: Option<usize>)
        ensures
            same_index(r, index_by_path(self@, path@)),
    {
        let mut i: usize = 0;
        proof {
            assert(self@.skip(0) == self@);
        }
        while i < self.items.len()
            invariant
                i <= self.items.len(),
                index_by_path(self@, path@) == (match index_by_path(self@.skip(i as int), path@) {
                    Some(k) => Some(k + i),
                    None => None,
                }),
            decreases self.items.len() - i,
        {
            proof {
                assert(self@.skip(i as int).drop_first() == self@.skip(i + 1));
            }
            if str_eq(self.items[i].path.as_str(), path) {
                return Some(i);
            }
            i += 1;
        }
        None
    }

    /// Index of the first item with the identifier `name`.
    pub fn item_idx_by_name(&self, name: &str) -> (r: Option<usize>)
        ensures
            same_index(r, index_by_name(self@, name@)),
    {
        let mut i: usize = 0;
        proof {
            assert(self@.skip(0) == self@);
        }
        while i < self.items.len()
            invariant
                i <= self.items.len(),
                index_by_name(self@, name@) == (match index_by_name(self@.skip(i as int), name@) {
                    Some(k) => Some(k + i),
                    None => None,
                }),
            decreases self.items.len() - i,
        {
            proof {
                assert(self@.skip(i as int).drop_first() == self@.skip(i + 1));
            }
            if str_eq(self.items[i].name.as_str(), name) {
                return Some(i);
            }
            i += 1;
        }
        None
    }
}

/// Once the first `k` children fail to make a manifest, all of them do,
/// for the same reason.
pub proof fn lemma_manifest_fails(children: Seq<XmlTree>, k: int)
    requires
        0 <= k <= children.len(),
        manifest_of(children.take(k)) is Err,
    ensures
        manifest_of(children) == manifest_of(children.take(k)),
    decreases children.len() - k,
{
    if k == children.len() {
        assert(children.take(k) == children);
    } else {
        assert(children.drop_last().take(k) == children.take(k));
        lemma_manifest_fails(children.drop_last(), k);
    }
}

/// The reading order of a package: indices into the manifest.
#[derive(Debug)]
pub struct Spine {
    pub entries: Vec<usize>,
}

impl View for Spine {
    type V = Seq<int>;

    open spec fn view(&self) -> Seq<int> {
        Seq::new(self.entries@.len(), |i: int| self.entries@[i] as int)
    }
}

/// The reading order that the child nodes `children` of a spine element
/// give over the manifest `items`: for every child that names an item,
/// the index of that item. A name that no item has fails the whole, and
/// the failure tells the name.
pub open spec fn spine_of(items: Seq<ItemView>, children: Seq<XmlTree>) -> Result<Seq<int>, Fault>
    decreases children.len(),
{
    if children.len() == 0 {
        Ok(Seq::empty())
    } else {
        match spine_of(items, children.drop_last()) {
            Err(e) => Err(e),
            Ok(before) => match children.last().attr("idref"@) {
                None => Ok(before),
                Some(name) => match index_by_name(items, name) {
                    Some(i) => Ok(before.push(i)),
                    None => Err(Fault { kind: PackageErrorKind::InvalidSpine, detail: name }),
                },
            },
        }
    }
}

/// The index of the legacy navigation document that the spine element
/// `node` names, if it names one that the manifest has.
pub open spec fn ncx_of(items: Seq<ItemView>, node: XmlTree) -> Option<int> {
    match node.attr("toc"@) {
        Some(name) => index_by_name(items, name),
        None => None,
    }
}

/// Once the first `k` children fail to make a spine, all of them do.
pub proof fn lemma_spine_fails(items: Seq<ItemView>, children: Seq<XmlTree>, k: int)
    requires
        0 <= k <= children.len(),
        spine_of(items, children.take(k)) is Err,
    ensures
        spine_of(items, children) == spine_of(items, children.take(k)),
    decreases children.len() - k,
{
    if k == children.len() {
        assert(children.take(k) == children);
    } else {
        assert(children.drop_last().take(k) == children.take(k));
        lemma_spine_fails(items, children.drop_last(), k);
    }
}

/// A spine entry that names no manifest item fails the spine, whatever
/// else the spine holds.
pub proof fn lemma_dangling_spine_fails(items: Seq<ItemView>, children: Seq<XmlTree>, k: int)
    requires
        0 <= k < children.len(),
        children[k].attr("idref"@) matches Some(name) && index_by_name(items, name) is None,
    ensures
        spine_of(items, children) is Err,
    decreases children.len(),
{
    if k < children.len() - 1 {
        assert(children.drop_last()[k] == children[k]);
        lemma_dangling_spine_fails(items, children.drop_last(), k);
    }
}

/// Where a manifest holds an item flagged as the navigation document,
/// the manifest names one: the last that is flagged.
pub proof fn lemma_nav_flag_found(children: Seq<XmlTree>, k: int)
    requires
        0 <= k < children.len(),
        children[k].kind == NodeKind::Element,
        children[k].attr("properties"@) == Some("nav"@),
        manifest_of(children) is Ok,
    ensures
        manifest_of(children)->Ok_0.nav is Some,
    decreases children.len(),
{
    if k < children.len() - 1 {
        assert(children.drop_last()[k] == children[k]);
        lemma_nav_flag_found(children.drop_last(), k);
    }
}

/// Every entry of a spine made over `items` is an index into them.
pub proof fn lemma_spine_in_manifest(items: Seq<ItemView>, children: Seq<XmlTree>)
    ensures
        spine_of(items, children) matches Ok(s) ==> forall|i: int| 0 <= i < s.len() ==> 0 <= #[trigger] s[i] < items.len(),
    decreases children.len(),
{
    if children.len() > 0 {
        lemma_spine_in_manifest(items, children.drop_last());
        match children.last().attr("idref"@) {
            Some(name) => {
                lemma_index_by_name(items, name);
            },
            None => {},
        }
    }
}

/// Index of the first entry of `spine` that is `item`.
pub open spec fn spine_position(spine: Seq<int>, item: int) -> Option<int>
    decreases spine.len(),
{
    if spine.len() == 0 {
        None
    } else if spine[0] == item {
        Some(0)
    } else {
        match spine_position(spine.drop_first(), item) {
            Some(i) => Some(i + 1),
            None => None,
        }
    }
}

impl Spine {
    /// Reads the spine element `node` against `manifest`: the reading
    /// order, and the index of the legacy navigation document, if the
    /// element names one.
    pub fn parse(manifest: &Manifest, node: &XmlNode) -> (r: Result<(Spine, Option<usize>), PackageError>)
        ensures
            (match spine_of(manifest@, node@.children) {
                Ok(s) => r matches Ok(parsed) && parsed.0@ == s && same_index(parsed.1, ncx_of(manifest@, node@)),
                Err(fault) => r matches Err(e) && e@ == fault,
            }),
    {
        let ncx = match node.attribute("toc") {
            Some(name) => manifest.item_idx_by_name(name),
            None => None,
        };
        let mut entries: Vec<usize> = Vec::new();
        let ghost nodes = node@.children;
        let mut i: usize = 0;
        while i < node.child_count()
            invariant
                i <= nodes.len(),
                nodes == node@.children,
                spine_of(manifest@, nodes.take(i as int)) matches Ok(s) && (Spine { entries })@ == s,
            decreases nodes.len() - i,
        {
            let child = node.child(i);
            let ghost before = (Spine { entries })@;
            proof {
                assert(nodes.take(i + 1).drop_last() == nodes.take(i as int));
                assert(nodes.take(i + 1).last() == child@);
            }
            match child.attribute("idref") {
                Some(name) => match manifest.item_idx_by_name(name) {
                    Some(idx) => {
                        entries.push(idx);
                        proof {
                            assert((Spine { entries })@ =~= before.push(idx as int));
                        }
                    },
                    None => {
                        proof {
                            lemma_spine_fails(manifest@, nodes, i + 1);
                        }
                        return Err(PackageError::new(PackageErrorKind::InvalidSpine, name));
                    },
                },
                None => {},
            }
            i += 1;
        }
        proof {
            assert(nodes.take(nodes.len() as int) == nodes);
        }
        Ok((Spine { entries }, ncx))
    }

    /// The manifest indices of the spine, in reading order.
    pub fn manifest_indices(&self) -> (r: &Vec<usize>)
        ensures
            r@ == self.entries@,
    {
        &self.entries
    }

    /// Index of the first spine entry that is the manifest item `item`.
    pub fn position(&self, item: usize) -> (r: Option<usize>)
        ensures
            same_index(r, spine_position(self@, item as int)),
    {
        let mut i: usize = 0;
        proof {
            assert(self@.skip(0) == self@);
        }
        while i < self.entries.len()
            invariant
                i <= self.entries.len(),
                spine_position(self@, item as int) == (match spine_position(self@.skip(i as int), item as int) {
                    Some(k) => Some(k + i),
                    None => None,
                }),
            decreases self.entries.len() - i,
        {
            proof {
                assert(self@.skip(i as int).drop_first() == self@.skip(i + 1));
            }
            if self.entries[i] == item {
                return Some(i);
            }
            i += 1;
        }
        None
    }
}

/// One entry of the table of contents.
#[derive(Debug)]
pub struct TocEntry {
    name: String,
    fragment: Option<String>,
    idx: usize,
    depth: usize,
}

/// An entry of the table of contents as plain values.
pub struct TocEntryView {
    /// The name that the entry shows.
    pub name: Seq<char>,
    /// The place inside the file that the entry points to, if any.
    pub fragment: Option<Seq<char>>,
    /// The position in the spine of the file that the entry points to.
    pub idx: int,
    /// How deep the entry is nested; 0 at the top.
    pub depth: int,
}

impl View for TocEntry {
    type V = TocEntryView;

    closed spec fn view(&self) -> TocEntryView {
        TocEntryView {
            name: self.name@,
            fragment: crate::xml::opt_view(self.fragment),
            idx: self.idx as int,
            depth: self.depth as int,
        }
    }
}

impl TocEntry {
    /// An entry with these parts.
    pub fn new(name: String, fragment: Option<String>, idx: usize, depth: usize) -> (r: TocEntry)
        ensures
            r@ == (TocEntryView {
                name: name@,
                fragment: crate::xml::opt_view(fragment),
                idx: idx as int,
                depth: depth as int,
            }),
    {
        TocEntry { name, fragment, idx, depth }
    }

    /// The name that the entry shows.
    pub fn name(&self) -> (r: &str)
        ensures
            r@ == self@.name,
    {
        self.name.as_str()
    }

    /// How deep the entry is nested; 0 at the top.
    pub fn depth(&self) -> (r: usize)
        ensures
            r == self@.depth,
    {
        self.depth
    }

    /// The position in the spine of the file that the entry points to.
    pub fn idx(&self) -> (r: usize)
        ensures
            r == self@.idx,
    {
        self.idx
    }

    /// The place inside the file that the entry points to, if any.
    pub fn fragment(&self) -> (r: Option<&str>)
        ensures
            r is Some == self@.fragment is Some,
            r matches Some(f) ==> f@ == self@.fragment->0,
    {
        match &self.fragment {
            Some(f) => Some(f.as_str()),
            None => None,
        }
    }
}

/// The table of contents: its entries in the order of the navigation
/// document, and the play orders that a legacy navigation document
/// states. The play orders are kept as they were read and order nothing.
#[derive(Debug)]
pub struct Toc {
    entries: Vec<TocEntry>,
    play_order: Vec<usize>,
}

/// The entries of `entries`, as plain values.
pub open spec fn entries_view(entries: Seq<TocEntry>) -> Seq<TocEntryView> {
    Seq::new(entries.len(), |i: int| entries[i]@)
}

impl View for Toc {
    type V = Seq<TocEntryView>;

    closed spec fn view(&self) -> Seq<TocEntryView> {
        entries_view(self.entries@)
    }
}

/// The numbers of `orders`, as plain values.
pub open spec fn orders_view(orders: Seq<usize>) -> Seq<nat> {
    Seq::new(orders.len(), |i: int| orders[i] as nat)
}

impl Toc {
    /// The play orders of the entries that state one, in the order of
    /// the document.
    pub closed spec fn orders(&self) -> Seq<nat> {
        orders_view(self.play_order@)
    }

    /// A table of contents with these entries and play orders.
    pub fn new(entries: Vec<TocEntry>, play_order: Vec<usize>) -> (r: Toc)
        ensures
            r@ == entries_view(entries@),
            r.orders() == orders_view(play_order@),
    {
        Toc { entries, play_order }
    }

    /// The play orders of the entries that state one.
    pub fn play_order(&self) -> (r: &Vec<usize>)
        ensures
            orders_view(r@) == self.orders(),
    {
        &self.play_order
    }

    /// How many entries the table holds.
    pub fn len(&self) -> (r: usize)
        ensures
            r == self@.len(),
    {
        self.entries.len()
    }

    /// The entries in the order of the navigation document.
    pub fn entries(&self) -> (r: &Vec<TocEntry>)
        ensures
            entries_view(r@) == self@,
    {
        &self.entries
    }
}

} // verus!
