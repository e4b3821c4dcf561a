//! The table of contents, read from the navigation document of either
//! schema generation into one list of entries.

use vstd::prelude::*;
use crate::css::{parse_number, parse_usize};
use crate::epub::{
    bare, entries_view, orders_view, same_index, spine_position, Fault, ItemView, Manifest, PackageError,
    PackageErrorKind, Spine, Toc, TocEntry, TocEntryView,
};
use crate::link::{item_uri, item_url, join_path, joined_path, path_of, url_path, url_text};
use crate::text::{last_index_of, lowercase, lowered, split_last, texts};
use crate::xml::{element_index, lemma_element_index, opt_view, str_eq, NodeKind, XmlNode, XmlTree};

verus! {

/// Index of the first of `items` that equals `x`.
pub open spec fn first_equal(items: Seq<Seq<char>>, x: Seq<char>) -> Option<int>
    decreases items.len(),
{
    if items.len() == 0 {
        None
    } else if items[0] == x {
        Some(0)
    } else {
        match first_equal(items.drop_first(), x) {
            Some(i) => Some(i + 1),
            None => None,
        }
    }
}

/// Index of the first element among `nodes` with the tag `name`.
pub open spec fn find_element(nodes: Seq<XmlTree>, name: Seq<char>) -> Option<int>
    decreases nodes.len(),
{
    if nodes.len() == 0 {
        None
    } else if nodes[0].kind == NodeKind::Element && nodes[0].name == name {
        Some(0)
    } else {
        match find_element(nodes.drop_first(), name) {
            Some(i) => Some(i + 1),
            None => None,
        }
    }
}

/// How many of the first `i` of `nodes` are elements.
pub open spec fn element_rank(nodes: Seq<XmlTree>, i: int) -> int
    decreases i,
{
    if i <= 0 || i > nodes.len() {
        0
    } else if nodes[i - 1].kind == NodeKind::Element {
        element_rank(nodes, i - 1) + 1
    } else {
        element_rank(nodes, i - 1)
    }
}

/// A link cut at its last `#`: the path, and the fragment if there is
/// one.
pub open spec fn link_parts(link: Seq<char>) -> (Seq<char>, Option<Seq<char>>) {
    match last_index_of(link, '#') {
        Some(i) => (link.take(i), Some(link.skip(i + 1))),
        None => (link, None),
    }
}

/// One deeper than `depth`.
pub open spec fn deeper(depth: int) -> int {
    if depth < usize::MAX {
        depth + 1
    } else {
        depth
    }
}

/// What the walk over a legacy navigation map has gathered.
pub struct NcxView {
    pub entries: Seq<TocEntryView>,
    /// The play orders of the entries that state one, in document order.
    pub play_order: Seq<nat>,
}

/// What a legacy navigation map is resolved against: the paths of the
/// manifest items in lowercase, and the spine.
pub struct NcxContext {
    pub paths: Seq<Seq<char>>,
    pub spine: Seq<int>,
}

/// The name of a navigation point: the text of the first element in its
/// first element.
pub open spec fn navpoint_name(point: XmlTree) -> Option<Seq<char>> {
    match point.element_child(0) {
        Some(label) => match label.element_child(0) {
            Some(text) => text.text,
            None => None,
        },
        None => None,
    }
}

/// The link of a navigation point: the source of its second element.
pub open spec fn navpoint_src(point: XmlTree) -> Option<Seq<char>> {
    match point.element_child(1) {
        Some(content) => content.attr("src"@),
        None => None,
    }
}

/// The spine position of the file at `path` (in lowercase), or 0 where
/// no manifest item lies there or the item is not in the spine.
pub open spec fn ncx_target(c: NcxContext, path: Seq<char>) -> int {
    match first_equal(c.paths, path) {
        Some(item) => match spine_position(c.spine, item) {
            Some(position) => position,
            None => 0,
        },
        None => 0,
    }
}

/// The entry of the navigation point `point` at `depth`.
pub open spec fn navpoint_entry(c: NcxContext, point: XmlTree, depth: int) -> Result<TocEntryView, Fault> {
    match navpoint_name(point) {
        None => Err(bare(PackageErrorKind::NavPointMissingName)),
        Some(name) => match navpoint_src(point) {
            None => Err(Fault { kind: PackageErrorKind::NavPointMissingSrc, detail: name }),
            Some(src) => Ok(
                TocEntryView {
                    name,
                    fragment: link_parts(src).1,
                    idx: ncx_target(c, lowered(link_parts(src).0)),
                    depth,
                },
            ),
        },
    }
}

/// `acc` after the navigation point `point` itself.
pub open spec fn navpoint_own(c: NcxContext, point: XmlTree, depth: int, acc: NcxView) -> Result<
    NcxView,
    Fault,
> {
    match point.attr("playOrder"@) {
        Some(order) => match parse_number(order) {
            None => Err(Fault { kind: PackageErrorKind::InvalidPlayOrder, detail: order }),
            Some(n) => match navpoint_entry(c, point, depth) {
                Err(e) => Err(e),
                Ok(entry) => Ok(NcxView { entries: acc.entries.push(entry), play_order: acc.play_order.push(n) }),
            },
        },
        None => match navpoint_entry(c, point, depth) {
            Err(e) => Err(e),
            Ok(entry) => Ok(NcxView { entries: acc.entries.push(entry), play_order: acc.play_order }),
        },
    }
}

/// `acc` after the navigation point `point` and the points among its
/// first `k` children were walked, depth first. The first two elements
/// of a point are its label and its content; every further element is a
/// point one level deeper.
pub open spec fn navpoint_walk(c: NcxContext, point: XmlTree, k: int, depth: int, acc: Result<NcxView, Fault>) -> Result<
    NcxView,
    Fault,
>
    decreases point, k,
{
    if k <= 0 || k > point.children.len() {
        match acc {
            Err(e) => Err(e),
            Ok(st) => navpoint_own(c, point, depth, st),
        }
    } else {
        let before = navpoint_walk(c, point, k - 1, depth, acc);
        let child = point.children[k - 1];
        if child.kind == NodeKind::Element && element_rank(point.children, k - 1) >= 2 {
            navpoint_walk(c, child, child.children.len() as int, deeper(depth), before)
        } else {
            before
        }
    }
}

/// `acc` after the navigation points among the first `k` of `nodes`,
/// the children of a navigation map: every element but the `navInfo`
/// elements that come before all others.
pub open spec fn navmap_walk(c: NcxContext, nodes: Seq<XmlTree>, k: int, acc: Result<NcxView, Fault>) -> Result<
    NcxView,
    Fault,
>
    decreases k,
{
    if k <= 0 || k > nodes.len() {
        acc
    } else {
        let before = navmap_walk(c, nodes, k - 1, acc);
        let node = nodes[k - 1];
        if node.kind == NodeKind::Element && !leading_info(nodes, k) {
            navpoint_walk(c, node, node.children.len() as int, 0, before)
        } else {
            before
        }
    }
}

/// Every element among the first `k` of `nodes` is a `navInfo`.
pub open spec fn leading_info(nodes: Seq<XmlTree>, k: int) -> bool
    decreases k,
{
    if k <= 0 || k > nodes.len() {
        true
    } else {
        leading_info(nodes, k - 1) && (nodes[k - 1].kind == NodeKind::Element ==> nodes[k - 1].name == "navInfo"@)
    }
}

/// The navigation map of the legacy navigation document `doc`: the
/// first `navMap` element in its root element.
pub open spec fn nav_map(doc: XmlTree) -> Option<XmlTree> {
    match doc.element_child(0) {
        Some(root) => match find_element(root.children, "navMap"@) {
            Some(i) => Some(root.children[i]),
            None => None,
        },
        None => None,
    }
}

/// The table of contents that the legacy navigation document `doc`
/// gives.
pub open spec fn ncx_toc(c: NcxContext, doc: XmlTree) -> Result<NcxView, Fault> {
    match nav_map(doc) {
        None => Err(bare(PackageErrorKind::TocMissingNavMap)),
        Some(map) => navmap_walk(
            c,
            map.children,
            map.children.len() as int,
            Ok(NcxView { entries: Seq::empty(), play_order: Seq::empty() }),
        ),
    }
}

/// The first element among the children of `node` with the tag `name`.
pub fn find_child<'a>(node: &'a XmlNode, name: &str) -> (r: Option<&'a XmlNode>)
    ensures
        (match find_element(node@.children, name@) {
            Some(i) => r matches Some(c) && 0 <= i < node@.children.len() && c@ == node@.children[i],
            None => r is None,
        }),
{
    let mut i: usize = 0;
    proof {
        assert(node@.children.skip(0) == node@.children);
    }
    while i < node.child_count()
        invariant
            i <= node@.children.len(),
            find_element(node@.children, name@) == (match find_element(node@.children.skip(i as int), name@) {
                Some(k) => Some(k + i),
                None => None,
            }),
        decreases node@.children.len() - i,
    {
        proof {
            assert(node@.children.skip(i as int).drop_first() == node@.children.skip(i + 1));
        }
        if node.child(i).has_tag_name(name) {
            return Some(node.child(i));
        }
        i += 1;
    }
    None
}

/// Index of the first of `items` that equals `x`.
pub fn position_of(items: &Vec<String>, x: &str) -> (r: Option<usize>)
    ensures
        same_index(r, first_equal(texts(items@), x@)),
{
    let ghost views = texts(items@);
    let mut i: usize = 0;
    proof {
        assert(views.skip(0) == views);
    }
    while i < items.len()
        invariant
            i <= items.len(),
            views == texts(items@),
            first_equal(views, x@) == (match first_equal(views.skip(i as int), x@) {
                Some(k) => Some(k + i),
                None => None,
            }),
        decreases items.len() - i,
    {
        proof {
            assert(views.skip(i as int).drop_first() == views.skip(i + 1));
        }
        if str_eq(items[i].as_str(), x) {
            return Some(i);
        }
        i += 1;
    }
    None
}

/// A link cut at its last `#`.
pub fn split_link(link: &str) -> (r: (String, Option<String>))
    ensures
        r.0@ == link_parts(link@).0,
        opt_view(r.1) == link_parts(link@).1,
{
    match split_last(link, '#') {
        Some((path, fragment)) => (path, Some(fragment)),
        None => (link.to_owned(), None),
    }
}

/// One deeper than `depth`.
pub fn next_depth(depth: usize) -> (r: usize)
    ensures
        r == deeper(depth as int),
{
    if depth < usize::MAX {
        depth + 1
    } else {
        depth
    }
}

/// The name of the navigation point `point`.
fn point_name(point: &XmlNode) -> (r: Option<&str>)
    ensures
        r is Some == navpoint_name(point@) is Some,
        r matches Some(n) ==> n@ == navpoint_name(point@)->0,
{
    match point.nth_element_child(0) {
        Some(label) => match label.nth_element_child(0) {
            Some(text) => text.text(),
            None => None,
        },
        None => None,
    }
}

/// The link of the navigation point `point`.
fn point_src(point: &XmlNode) -> (r: Option<&str>)
    ensures
        r is Some == navpoint_src(point@) is Some,
        r matches Some(n) ==> n@ == navpoint_src(point@)->0,
{
    match point.nth_element_child(1) {
        Some(content) => content.attribute("src"),
        None => None,
    }
}

/// Adds the entry of the navigation point `point` itself.
fn visit_own(
    point: &XmlNode,
    paths: &Vec<String>,
    spine: &Spine,
    entries: &mut Vec<TocEntry>,
    play_order: &mut Vec<usize>,
    depth: usize,
) -> (r: Result<(), PackageError>)
    ensures
        (match navpoint_own(
            NcxContext { paths: texts(paths@), spine: spine@ },
            point@,
            depth as int,
            NcxView { entries: entries_view(old(entries)@), play_order: orders_view(old(play_order)@) },
        ) {
            Ok(st) => r is Ok && entries_view(final(entries)@) == st.entries && orders_view(final(play_order)@)
                == st.play_order,
            Err(fault) => r matches Err(e) && e@ == fault,
        }),
{
    let ghost c = NcxContext { paths: texts(paths@), spine: spine@ };
    let ghost entries0 = entries_view(entries@);
    let ghost orders0 = orders_view(play_order@);
    let order = match point.attribute("playOrder") {
        Some(text) => match parse_usize(text) {
            Some(n) => Some(n),
            None => {
                return Err(PackageError::new(PackageErrorKind::InvalidPlayOrder, text));
            },
        },
        None => None,
    };
    let name = match point_name(point) {
        Some(n) => n.to_owned(),
        None => {
            return Err(PackageError::new(PackageErrorKind::NavPointMissingName, ""));
        },
    };
    let src = match point_src(point) {
        Some(s) => s,
        None => {
            return Err(PackageError::new(PackageErrorKind::NavPointMissingSrc, name.as_str()));
        },
    };
    let (path, fragment) = split_link(src);
    let lower = lowercase(path.as_str());
    let idx = match position_of(paths, lower.as_str()) {
        Some(item) => match spine.position(item) {
            Some(position) => position,
            None => 0,
        },
        None => 0,
    };
    let entry = TocEntry::new(name, fragment, idx, depth);
    proof {
        assert(entry@ == navpoint_entry(c, point@, depth as int)->Ok_0);
    }
    entries.push(entry);
    match order {
        Some(n) => {
            play_order.push(n);
            proof {
                assert(orders_view(play_order@) =~= orders0.push(n as nat));
            }
        },
        None => {},
    }
    proof {
        assert(entries_view(entries@) =~= entries0.push(entry@));
    }
    Ok(())
}

/// Once the walk has failed it stays failed, whatever follows.
pub proof fn lemma_navpoint_walk_err(c: NcxContext, point: XmlTree, k: int, depth: int, e: Fault)
    ensures
        navpoint_walk(c, point, k, depth, Err(e)) == Err::<NcxView, Fault>(e),
    decreases point, k,
{
    if k <= 0 || k > point.children.len() {
    } else {
        lemma_navpoint_walk_err(c, point, k - 1, depth, e);
        let child = point.children[k - 1];
        lemma_navpoint_walk_err(c, child, child.children.len() as int, deeper(depth), e);
    }
}

/// A walk that has failed after the first `k` children of a point has
/// failed for good.
pub proof fn lemma_navpoint_walk_stays(
    c: NcxContext,
    point: XmlTree,
    k: int,
    n: int,
    depth: int,
    acc: Result<NcxView, Fault>,
)
    requires
        0 <= k <= n <= point.children.len(),
        navpoint_walk(c, point, k, depth, acc) is Err,
    ensures
        navpoint_walk(c, point, n, depth, acc) == navpoint_walk(c, point, k, depth, acc),
    decreases n - k,
{
    if k < n {
        lemma_navpoint_walk_stays(c, point, k, n - 1, depth, acc);
        let child = point.children[n - 1];
        let e = navpoint_walk(c, point, k, depth, acc)->Err_0;
        lemma_navpoint_walk_err(c, child, child.children.len() as int, deeper(depth), e);
    }
}

/// Walks the navigation point `point` and the points below it.
#[verifier::loop_isolation(false)]
fn visit_navpoint(
    point: &XmlNode,
    paths: &Vec<String>,
    spine: &Spine,
    entries: &mut Vec<TocEntry>,
    play_order: &mut Vec<usize>,
    depth: usize,
) -> (r: Result<(), PackageError>)
    ensures
        (match navpoint_walk(
            NcxContext { paths: texts(paths@), spine: spine@ },
            point@,
            point@.children.len() as int,
            depth as int,
            Ok(NcxView { entries: entries_view(old(entries)@), play_order: orders_view(old(play_order)@) }),
        ) {
            Ok(st) => r is Ok && entries_view(final(entries)@) == st.entries && orders_view(final(play_order)@)
                == st.play_order,
            Err(fault) => r matches Err(e) && e@ == fault,
        }),
    decreases point@,
{
    let ghost c = NcxContext { paths: texts(paths@), spine: spine@ };
    let ghost acc = Ok::<NcxView, Fault>(
        NcxView { entries: entries_view(entries@), play_order: orders_view(play_order@) },
    );
    let n = point.child_count();
    match visit_own(point, paths, spine, entries, play_order, depth) {
        Ok(()) => {},
        Err(e) => {
            proof {
                lemma_navpoint_walk_stays(c, point@, 0, n as int, depth as int, acc);
            }
            return Err(e);
        },
    }
    let mut seen: usize = 0;
    let mut k: usize = 0;
    while k < n
        invariant
            k <= n == point@.children.len(),
            c == (NcxContext { paths: texts(paths@), spine: spine@ }),
            seen <= k,
            seen == element_rank(point@.children, k as int),
            navpoint_walk(c, point@, k as int, depth as int, acc) matches Ok(st) && entries_view(entries@) == st.entries
                && orders_view(play_order@) == st.play_order,
        decreases n - k,
    {
        let child = point.child(k);
        let ghost before = navpoint_walk(c, point@, k as int, depth as int, acc);
        proof {
            assert(before == Ok::<NcxView, Fault>(
                NcxView { entries: entries_view(entries@), play_order: orders_view(play_order@) },
            ));
        }
        if child.is_element() {
            if seen >= 2 {
                match visit_navpoint(child, paths, spine, entries, play_order, next_depth(depth)) {
                    Ok(()) => {},
                    Err(e) => {
                        proof {
                            assert(navpoint_walk(c, point@, k + 1, depth as int, acc) == navpoint_walk(
                                c,
                                child@,
                                child@.children.len() as int,
                                deeper(depth as int),
                                before,
                            ));
                            lemma_navpoint_walk_stays(c, point@, k + 1, n as int, depth as int, acc);
                        }
                        return Err(e);
                    },
                }
            }
            seen += 1;
        }
        k += 1;
    }
    Ok(())
}

/// Once the walk over a map has failed it stays failed.
pub proof fn lemma_navmap_walk_stays(
    c: NcxContext,
    nodes: Seq<XmlTree>,
    k: int,
    n: int,
    acc: Result<NcxView, Fault>,
)
    requires
        0 <= k <= n <= nodes.len(),
        navmap_walk(c, nodes, k, acc) is Err,
    ensures
        navmap_walk(c, nodes, n, acc) == navmap_walk(c, nodes, k, acc),
    decreases n - k,
{
    if k < n {
        lemma_navmap_walk_stays(c, nodes, k, n - 1, acc);
        let node = nodes[n - 1];
        let e = navmap_walk(c, nodes, k, acc)->Err_0;
        lemma_navpoint_walk_err(c, node, node.children.len() as int, 0, e);
    }
}

/// The paths of the manifest items in lowercase.
fn lowered_paths(manifest: &Manifest) -> (r: Vec<String>)
    ensures
        texts(r@) == manifest_lowered(manifest@),
{
    let mut out: Vec<String> = Vec::new();
    let mut i: usize = 0;
    while i < manifest.items.len()
        invariant
            i <= manifest.items.len(),
            out@.len() == i,
            forall|j: int| 0 <= j < i ==> (#[trigger] out@[j])@ == lowered(manifest@[j].path),
        decreases manifest.items.len() - i,
    {
        out.push(lowercase(manifest.items[i].path.as_str()));
        i += 1;
    }
    proof {
        assert(texts(out@) =~= manifest_lowered(manifest@));
    }
    out
}

/// The paths of `items` in lowercase.
pub open spec fn manifest_lowered(items: Seq<ItemView>) -> Seq<Seq<char>> {
    Seq::new(items.len(), |i: int| lowered(items[i].path))
}

impl Toc {
    /// Reads the legacy navigation document `doc` of a version 2
    /// package. A link that names no file of the manifest, or one outside
    /// the spine, is taken to point to the first file of the spine.
    #[verifier::loop_isolation(false)]
    pub fn parse_v2(manifest: &Manifest, spine: &Spine, doc: &XmlNode) -> (r: Result<Toc, PackageError>)
        ensures
            (match ncx_toc(NcxContext { paths: manifest_lowered(manifest@), spine: spine@ }, doc@) {
                Ok(st) => r matches Ok(toc) && toc@ == st.entries && toc.orders() == st.play_order,
                Err(fault) => r matches Err(e) && e@ == fault,
            }),
    {
        let ghost c = NcxContext { paths: manifest_lowered(manifest@), spine: spine@ };
        let root = match doc.nth_element_child(0) {
            Some(root) => root,
            None => {
                return Err(PackageError::new(PackageErrorKind::TocMissingNavMap, ""));
            },
        };
        let map = match find_child(root, "navMap") {
            Some(map) => map,
            None => {
                return Err(PackageError::new(PackageErrorKind::TocMissingNavMap, ""));
            },
        };
        let paths = lowered_paths(manifest);
        let mut entries: Vec<TocEntry> = Vec::new();
        let mut play_order: Vec<usize> = Vec::new();
        let ghost acc = Ok::<NcxView, Fault>(NcxView { entries: Seq::empty(), play_order: Seq::empty() });
        proof {
            assert(entries_view(entries@) =~= Seq::<TocEntryView>::empty());
            assert(orders_view(play_order@) =~= Seq::<nat>::empty());
        }
        let n = map.child_count();
        let mut leading = true;
        let mut k: usize = 0;
        while k < n
            invariant
                k <= n == map@.children.len(),
                c == (NcxContext { paths: texts(paths@), spine: spine@ }),
                leading == leading_info(map@.children, k as int),
                navmap_walk(c, map@.children, k as int, acc) matches Ok(st) && entries_view(entries@) == st.entries
                    && orders_view(play_order@) == st.play_order,
            decreases n - k,
        {
            let node = map.child(k);
            let ghost before = navmap_walk(c, map@.children, k as int, acc);
            proof {
                assert(before == Ok::<NcxView, Fault>(
                    NcxView { entries: entries_view(entries@), play_order: orders_view(play_order@) },
                ));
            }
            if node.is_element() {
                if leading && !str_eq(node.name(), "navInfo") {
                    leading = false;
                }
                if !leading {
                    match visit_navpoint(node, &paths, spine, &mut entries, &mut play_order, 0) {
                        Ok(()) => {},
                        Err(e) => {
                            proof {
                                assert(navmap_walk(c, map@.children, k + 1, acc) == navpoint_walk(
                                    c,
                                    node@,
                                    node@.children.len() as int,
                                    0,
                                    before,
                                ));
                                lemma_navmap_walk_stays(c, map@.children, k + 1, n as int, acc);
                            }
                            return Err(e);
                        },
                    }
                }
            }
            k += 1;
        }
        Ok(Toc::new(entries, play_order))
    }
}

/// Whether `node` is the navigation element that holds the table of
/// contents: a `nav` whose `type` in the namespace of EPUB is `toc`.
pub open spec fn is_nav(node: XmlTree) -> bool {
    &&& node.kind == NodeKind::Element
    &&& node.name == "nav"@
    &&& node.attr_ns("http://www.idpf.org/2007/ops"@, "type"@) == Some("toc"@)
}

/// The first navigation element below `node`, among its first `k`
/// children and what is below them, in document order.
pub open spec fn find_nav(node: XmlTree, k: int) -> Option<XmlTree>
    decreases node, k,
{
    if k <= 0 || k > node.children.len() {
        None
    } else {
        match find_nav(node, k - 1) {
            Some(nav) => Some(nav),
            None => {
                let child = node.children[k - 1];
                if is_nav(child) {
                    Some(child)
                } else {
                    find_nav(child, child.children.len() as int)
                }
            },
        }
    }
}

/// What a navigation document is resolved against: for each manifest
/// item the path of its URL, the text of the URL of the navigation
/// document, and the spine.
pub struct NavContext {
    pub targets: Seq<Option<Seq<char>>>,
    pub base: Seq<char>,
    pub spine: Seq<int>,
}

/// The path of the URL that `href` points to from the navigation
/// document.
pub open spec fn href_target(c: NavContext, href: Seq<char>) -> Option<Seq<char>> {
    joined_path(c.base, href)
}

/// Index of the first of `targets` that is the path `path`.
pub open spec fn first_target(targets: Seq<Option<Seq<char>>>, path: Seq<char>) -> Option<int>
    decreases targets.len(),
{
    if targets.len() == 0 {
        None
    } else if targets[0] == Some(path) {
        Some(0)
    } else {
        match first_target(targets.drop_first(), path) {
            Some(i) => Some(i + 1),
            None => None,
        }
    }
}

/// The entry of the list item `item` at `depth`. Its first element
/// carries the link and the name. The link must lead to a manifest item,
/// and that item must be in the spine.
pub open spec fn nav_entry(c: NavContext, item: XmlTree, depth: int) -> Result<TocEntryView, Fault> {
    match item.element_child(0) {
        None => Err(bare(PackageErrorKind::InvalidTocItem)),
        Some(element) => match element.attr("href"@) {
            None => Err(bare(PackageErrorKind::TocItemMissingHref)),
            Some(href) => match href_target(c, href) {
                None => Err(Fault { kind: PackageErrorKind::TocReferenceNotInManifest, detail: href }),
                Some(path) => match first_target(c.targets, path) {
                    None => Err(Fault { kind: PackageErrorKind::TocReferenceNotInManifest, detail: href }),
                    Some(item_idx) => match spine_position(c.spine, item_idx) {
                        None => Err(Fault { kind: PackageErrorKind::TocReferenceNotInSpine, detail: href }),
                        Some(idx) => match element.text {
                            None => Err(Fault { kind: PackageErrorKind::TocItemMissingName, detail: href }),
                            Some(name) => Ok(TocEntryView { name, fragment: link_parts(href).1, idx, depth }),
                        },
                    },
                },
            },
        },
    }
}

/// The list nested in the list item `item`: its second element, where
/// that is an `ol`.
pub open spec fn nested_list(item: XmlTree) -> Option<int> {
    match element_index(item.children, 1) {
        Some(i) => if item.children[i].name == "ol"@ {
            Some(i)
        } else {
            None
        },
        None => None,
    }
}

/// `acc` after the items among the first `k` children of the list
/// `list` were walked, depth first: each item adds its entry, and the
/// items of a nested list follow one level deeper.
pub open spec fn nav_walk(c: NavContext, list: XmlTree, k: int, depth: int, acc: Result<Seq<TocEntryView>, Fault>) -> Result<
    Seq<TocEntryView>,
    Fault,
>
    decreases list, k,
{
    if k <= 0 || k > list.children.len() {
        acc
    } else {
        match nav_walk(c, list, k - 1, depth, acc) {
            Err(e) => Err(e),
            Ok(before) => {
                let item = list.children[k - 1];
                if item.kind != NodeKind::Element {
                    Ok(before)
                } else {
                    match nav_entry(c, item, depth) {
                        Err(e) => Err(e),
                        Ok(entry) => match nested_list(item) {
                            Some(i) => {
                                proof {
                                    lemma_element_index(item.children, 1);
                                }
                                let sub = item.children[i];
                                nav_walk(c, sub, sub.children.len() as int, deeper(depth), Ok(before.push(entry)))
                            },
                            None => Ok(before.push(entry)),
                        },
                    }
                }
            },
        }
    }
}

/// The list of the navigation document `doc`: the second element of the
/// first navigation element in the body.
pub open spec fn nav_list(doc: XmlTree) -> Result<XmlTree, Fault> {
    match doc.element_child(0) {
        None => Err(bare(PackageErrorKind::TocMissingHead)),
        Some(root) => match root.element_child(0) {
            None => Err(bare(PackageErrorKind::TocMissingHead)),
            Some(_head) => match root.element_child(1) {
                None => Err(bare(PackageErrorKind::TocMissingBody)),
                Some(body) => match find_nav(body, body.children.len() as int) {
                    None => Err(bare(PackageErrorKind::TocMissingNav)),
                    Some(nav) => match nav.element_child(1) {
                        None => Err(bare(PackageErrorKind::TocMissingList)),
                        Some(list) => Ok(list),
                    },
                },
            },
        },
    }
}

/// The path of the URL of each of `items`.
pub open spec fn manifest_targets(items: Seq<ItemView>) -> Seq<Option<Seq<char>>> {
    Seq::new(
        items.len(),
        |i: int|
            match item_url(items[i].path) {
                Some(url) => Some(url_path(url)),
                None => None,
            },
    )
}

/// The table of contents that the navigation document `doc` gives,
/// where the document is item `toc_idx` of the manifest `items`.
pub open spec fn nav_toc(items: Seq<ItemView>, spine: Seq<int>, toc_idx: int, doc: XmlTree) -> Result<
    Seq<TocEntryView>,
    Fault,
> {
    match nav_list(doc) {
        Err(e) => Err(e),
        Ok(list) => if !(0 <= toc_idx < items.len()) {
            Err(bare(PackageErrorKind::TocBadLocation))
        } else {
            match item_url(items[toc_idx].path) {
                None => Err(Fault { kind: PackageErrorKind::TocBadLocation, detail: items[toc_idx].path }),
                Some(base) => nav_walk(
                    NavContext { targets: manifest_targets(items), base, spine },
                    list,
                    list.children.len() as int,
                    0,
                    Ok(Seq::empty()),
                ),
            }
        },
    }
}

/// The paths of `targets`, as plain values.
pub open spec fn targets_view(targets: Seq<Option<String>>) -> Seq<Option<Seq<char>>> {
    Seq::new(targets.len(), |i: int| opt_view(targets[i]))
}

/// Whether `node` is the navigation element that holds the table of
/// contents.
fn node_is_nav(node: &XmlNode) -> (r: bool)
    ensures
        r == is_nav(node@),
{
    if !node.has_tag_name("nav") {
        return false;
    }
    match node.attribute_ns("http://www.idpf.org/2007/ops", "type") {
        Some(v) => str_eq(v, "toc"),
        None => false,
    }
}

/// Once a navigation element was found among the first `k` children, it
/// is the one found among all.
pub proof fn lemma_find_nav_stays(node: XmlTree, k: int, n: int)
    requires
        0 <= k <= n <= node.children.len(),
        find_nav(node, k) is Some,
    ensures
        find_nav(node, n) == find_nav(node, k),
    decreases n - k,
{
    if k < n {
        lemma_find_nav_stays(node, k, n - 1);
    }
}

/// The first navigation element below `node`.
#[verifier::loop_isolation(false)]
fn find_nav_below(node: &XmlNode) -> (r: Option<&XmlNode>)
    ensures
        r is Some == find_nav(node@, node@.children.len() as int) is Some,
        r matches Some(nav) ==> nav@ == find_nav(node@, node@.children.len() as int)->0,
    decreases node@,
{
    let n = node.child_count();
    let mut k: usize = 0;
    while k < n
        invariant
            k <= n == node@.children.len(),
            find_nav(node@, k as int) is None,
        decreases n - k,
    {
        let child = node.child(k);
        if node_is_nav(child) {
            proof {
                lemma_find_nav_stays(node@, k + 1, n as int);
            }
            return Some(child);
        }
        match find_nav_below(child) {
            Some(nav) => {
                proof {
                    lemma_find_nav_stays(node@, k + 1, n as int);
                }
                return Some(nav);
            },
            None => {},
        }
        k += 1;
    }
    None
}

/// Index of the first of `targets` that is the path `path`.
fn target_position(targets: &Vec<Option<String>>, path: &str) -> (r: Option<usize>)
    ensures
        same_index(r, first_target(targets_view(targets@), path@)),
{
    let ghost views = targets_view(targets@);
    let mut i: usize = 0;
    proof {
        assert(views.skip(0) == views);
    }
    while i < targets.len()
        invariant
            i <= targets.len(),
            views == targets_view(targets@),
            first_target(views, path@) == (match first_target(views.skip(i as int), path@) {
                Some(k) => Some(k + i),
                None => None,
            }),
        decreases targets.len() - i,
    {
        proof {
            assert(views.skip(i as int).drop_first() == views.skip(i + 1));
            assert(views[i as int] == opt_view(targets@[i as int]));
        }
        match &targets[i] {
            Some(t) => {
                if str_eq(t.as_str(), path) {
                    return Some(i);
                }
            },
            None => {},
        }
        i += 1;
    }
    None
}

/// The entry of the list item `item` at `depth`.
fn item_entry(item: &XmlNode, targets: &Vec<Option<String>>, base: &url::Url, spine: &Spine, depth: usize) -> (r:
    Result<TocEntry, PackageError>)
    ensures
        (match nav_entry(
            NavContext { targets: targets_view(targets@), base: url_text(*base), spine: spine@ },
            item@,
            depth as int,
        ) {
            Ok(entry) => r matches Ok(e) && e@ == entry,
            Err(fault) => r matches Err(e) && e@ == fault,
        }),
{
    let element = match item.nth_element_child(0) {
        Some(e) => e,
        None => {
            return Err(PackageError::new(PackageErrorKind::InvalidTocItem, ""));
        },
    };
    let href = match element.attribute("href") {
        Some(h) => h,
        None => {
            return Err(PackageError::new(PackageErrorKind::TocItemMissingHref, ""));
        },
    };
    let (_, fragment) = split_link(href);
    let path = match join_path(base, href) {
        Some(p) => p,
        None => {
            return Err(PackageError::new(PackageErrorKind::TocReferenceNotInManifest, href));
        },
    };
    let item_idx = match target_position(targets, path.as_str()) {
        Some(i) => i,
        None => {
            return Err(PackageError::new(PackageErrorKind::TocReferenceNotInManifest, href));
        },
    };
    let idx = match spine.position(item_idx) {
        Some(i) => i,
        None => {
            return Err(PackageError::new(PackageErrorKind::TocReferenceNotInSpine, href));
        },
    };
    let name = match element.text() {
        Some(n) => n.to_owned(),
        None => {
            return Err(PackageError::new(PackageErrorKind::TocItemMissingName, href));
        },
    };
    Ok(TocEntry::new(name, fragment, idx, depth))
}

/// The list nested in the list item `item`.
fn item_list(item: &XmlNode) -> (r: Option<&XmlNode>)
    ensures
        r is Some == nested_list(item@) is Some,
        r matches Some(list) ==> 0 <= nested_list(item@)->0 < item@.children.len() && list@ == item@.children[nested_list(
            item@,
        )->0],
{
    proof {
        lemma_element_index(item@.children, 1);
    }
    match item.nth_element_child(1) {
        Some(e) => if str_eq(e.name(), "ol") {
            Some(e)
        } else {
            None
        },
        None => None,
    }
}

/// A walk that has failed after the first `k` children of a list has
/// failed for good.
pub proof fn lemma_nav_walk_stays(
    c: NavContext,
    list: XmlTree,
    k: int,
    n: int,
    depth: int,
    acc: Result<Seq<TocEntryView>, Fault>,
)
    requires
        0 <= k <= n <= list.children.len(),
        nav_walk(c, list, k, depth, acc) is Err,
    ensures
        nav_walk(c, list, n, depth, acc) == nav_walk(c, list, k, depth, acc),
    decreases n - k,
{
    if k < n {
        lemma_nav_walk_stays(c, list, k, n - 1, depth, acc);
    }
}

/// Walks the items of the list `list` and of the lists nested in them.
#[verifier::loop_isolation(false)]
fn visit_entries(
    list: &XmlNode,
    targets: &Vec<Option<String>>,
    base: &url::Url,
    spine: &Spine,
    entries: &mut Vec<TocEntry>,
    depth: usize,
) -> (r: Result<(), PackageError>)
    ensures
        (match nav_walk(
            NavContext { targets: targets_view(targets@), base: url_text(*base), spine: spine@ },
            list@,
            list@.children.len() as int,
            depth as int,
            Ok(entries_view(old(entries)@)),
        ) {
            Ok(all) => r is Ok && entries_view(final(entries)@) == all,
            Err(fault) => r matches Err(e) && e@ == fault,
        }),
    decreases list@,
{
    let ghost c = NavContext { targets: targets_view(targets@), base: url_text(*base), spine: spine@ };
    let ghost acc = Ok::<Seq<TocEntryView>, Fault>(entries_view(entries@));
    let n = list.child_count();
    let mut k: usize = 0;
    while k < n
        invariant
            k <= n == list@.children.len(),
            nav_walk(c, list@, k as int, depth as int, acc) matches Ok(all) && entries_view(entries@) == all,
        decreases n - k,
    {
        let item = list.child(k);
        let ghost before = entries_view(entries@);
        if item.is_element() {
            let entry = match item_entry(item, targets, base, spine, depth) {
                Ok(entry) => entry,
                Err(e) => {
                    proof {
                        lemma_nav_walk_stays(c, list@, k + 1, n as int, depth as int, acc);
                    }
                    return Err(e);
                },
            };
            entries.push(entry);
            proof {
                assert(entries_view(entries@) =~= before.push(entry@));
            }
            match item_list(item) {
                Some(sub) => {
                    match visit_entries(sub, targets, base, spine, entries, next_depth(depth)) {
                        Ok(()) => {},
                        Err(e) => {
                            proof {
                                lemma_nav_walk_stays(c, list@, k + 1, n as int, depth as int, acc);
                            }
                            return Err(e);
                        },
                    }
                },
                None => {},
            }
        }
        k += 1;
    }
    Ok(())
}

/// The path of the URL of each manifest item.
fn item_targets(manifest: &Manifest) -> (r: Vec<Option<String>>)
    ensures
        targets_view(r@) == manifest_targets(manifest@),
{
    let mut out: Vec<Option<String>> = Vec::new();
    let mut i: usize = 0;
    while i < manifest.items.len()
        invariant
            i <= manifest.items.len(),
            out@.len() == i,
            forall|j: int| 0 <= j < i ==> opt_view(#[trigger] out@[j]) == manifest_targets(manifest@)[j],
        decreases manifest.items.len() - i,
    {
        let target = match item_uri(manifest.items[i].path.as_str()) {
            Some(url) => Some(path_of(&url)),
            None => None,
        };
        out.push(target);
        i += 1;
    }
    proof {
        assert(targets_view(out@) =~= manifest_targets(manifest@));
    }
    out
}

/// The list of the navigation document `doc`.
fn list_of(doc: &XmlNode) -> (r: Result<&XmlNode, PackageError>)
    ensures
        (match nav_list(doc@) {
            Ok(list) => r matches Ok(l) && l@ == list,
            Err(fault) => r matches Err(e) && e@ == fault,
        }),
{
    let root = match doc.nth_element_child(0) {
        Some(root) => root,
        None => {
            return Err(PackageError::new(PackageErrorKind::TocMissingHead, ""));
        },
    };
    if root.nth_element_child(0).is_none() {
        return Err(PackageError::new(PackageErrorKind::TocMissingHead, ""));
    }
    let body = match root.nth_element_child(1) {
        Some(body) => body,
        None => {
            return Err(PackageError::new(PackageErrorKind::TocMissingBody, ""));
        },
    };
    let nav = match find_nav_below(body) {
        Some(nav) => nav,
        None => {
            return Err(PackageError::new(PackageErrorKind::TocMissingNav, ""));
        },
    };
    match nav.nth_element_child(1) {
        Some(list) => Ok(list),
        None => Err(PackageError::new(PackageErrorKind::TocMissingList, "")),
    }
}

impl Toc {
    /// Reads the navigation document `doc` of a version 3 package, which
    /// is item `toc_idx` of the manifest. Every entry must lead to a file
    /// of the spine.
    pub fn parse_v3(manifest: &Manifest, spine: &Spine, toc_idx: usize, doc: &XmlNode) -> (r: Result<
        Toc,
        PackageError,
    >)
        ensures
            (match nav_toc(manifest@, spine@, toc_idx as int, doc@) {
                Ok(entries) => r matches Ok(toc) && toc@ == entries && toc.orders() == Seq::<nat>::empty(),
                Err(fault) => r matches Err(e) && e@ == fault,
            }),
    {
        let list = match list_of(doc) {
            Ok(list) => list,
            Err(e) => {
                return Err(e);
            },
        };
        if toc_idx >= manifest.items.len() {
            return Err(PackageError::new(PackageErrorKind::TocBadLocation, ""));
        }
        let path = manifest.items[toc_idx].path.as_str();
        let base = match item_uri(path) {
            Some(url) => url,
            None => {
                return Err(PackageError::new(PackageErrorKind::TocBadLocation, path));
            },
        };
        let targets = item_targets(manifest);
        let mut entries: Vec<TocEntry> = Vec::new();
        proof {
            assert(entries_view(entries@) =~= Seq::<TocEntryView>::empty());
        }
        match visit_entries(list, &targets, &base, spine, &mut entries, 0) {
            Ok(()) => {
                let play_order: Vec<usize> = Vec::new();
                proof {
                    assert(orders_view(play_order@) =~= Seq::<nat>::empty());
                }
                Ok(Toc::new(entries, play_order))
            },
            Err(e) => Err(e),
        }
    }
}

/// In a legacy navigation map a link to a file that the manifest does
/// not hold does not fail: its entry points to the first file of the
/// spine.
pub proof fn lemma_ncx_dangling_points_to_first(c: NcxContext, point: XmlTree, depth: int)
    requires
        navpoint_entry(c, point, depth) is Ok,
        first_equal(c.paths, lowered(link_parts(navpoint_src(point)->0).0)) is None,
    ensures
        navpoint_entry(c, point, depth)->Ok_0.idx == 0,
{
}

/// In a navigation document a link to a file that the manifest does not
/// hold fails the whole table of contents.
pub proof fn lemma_nav_dangling_fails(
    c: NavContext,
    list: XmlTree,
    k: int,
    depth: int,
    acc: Result<Seq<TocEntryView>, Fault>,
)
    requires
        0 <= k < list.children.len(),
        list.children[k].kind == NodeKind::Element,
        list.children[k].element_child(0) matches Some(element) && element.attr("href"@) matches Some(href) && (
        href_target(c, href) matches Some(path) ==> first_target(c.targets, path) is None),
    ensures
        nav_walk(c, list, list.children.len() as int, depth, acc) is Err,
{
    assert(nav_entry(c, list.children[k], depth) is Err);
    assert(nav_walk(c, list, k + 1, depth, acc) is Err);
    lemma_nav_walk_stays(c, list, k + 1, list.children.len() as int, depth, acc);
}

} // verus!
