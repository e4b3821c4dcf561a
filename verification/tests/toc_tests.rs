use typebook::epub::{Item, Manifest, PackageErrorKind, Spine, Toc};
use typebook::toc::{find_child, next_depth, position_of, split_link};
use typebook::xml_parse::parse_xml;

fn manifest(paths: &[&str]) -> Manifest {
    Manifest {
        items: paths
            .iter()
            .enumerate()
            .map(|(i, p)| Item { name: format!("i{}", i), path: (*p).to_owned(), mime: "x".to_owned() })
            .collect(),
    }
}

#[test]
fn links_split_at_the_last_hash() {
    assert_eq!(split_link("a.xhtml#b"), ("a.xhtml".to_owned(), Some("b".to_owned())));
    assert_eq!(split_link("a#b#c"), ("a#b".to_owned(), Some("c".to_owned())));
    assert_eq!(split_link("a.xhtml"), ("a.xhtml".to_owned(), None));
    assert_eq!(split_link("a#"), ("a".to_owned(), Some(String::new())));
    assert_eq!(split_link(""), (String::new(), None));
}

#[test]
fn depth_grows_by_one() {
    assert_eq!(next_depth(0), 1);
    assert_eq!(next_depth(41), 42);
    assert_eq!(next_depth(usize::MAX), usize::MAX);
}

#[test]
fn positions_are_first_matches() {
    let items = vec!["a".to_owned(), "b".to_owned(), "a".to_owned()];
    assert_eq!(position_of(&items, "a"), Some(0));
    assert_eq!(position_of(&items, "b"), Some(1));
    assert_eq!(position_of(&items, "c"), None);
}

#[test]
fn children_are_found_by_tag() {
    let doc = parse_xml("<r>t<a/><b n=\"1\"/><b n=\"2\"/></r>").unwrap();
    let r = &doc.children[0];
    assert_eq!(find_child(r, "b").unwrap().attribute("n"), Some("1"));
    assert!(find_child(r, "c").is_none());
}

#[test]
fn manifest_and_spine_look_items_up() {
    let m = manifest(&["a.xhtml", "b.xhtml", "a.xhtml"]);
    assert_eq!(m.item_idx("a.xhtml"), Some(0));
    assert_eq!(m.item_idx("b.xhtml"), Some(1));
    assert_eq!(m.item_idx("c.xhtml"), None);
    assert_eq!(m.item_idx_by_name("i2"), Some(2));
    assert_eq!(m.item_idx_by_name("i9"), None);
    let s = Spine { entries: vec![2, 0, 2] };
    assert_eq!(s.manifest_indices(), &vec![2, 0, 2]);
    assert_eq!(s.position(2), Some(0));
    assert_eq!(s.position(0), Some(1));
    assert_eq!(s.position(1), None);
}

#[test]
fn manifest_parse_reads_items_and_the_nav_flag() {
    let doc = parse_xml(
        "<manifest><!-- c --><item id=\"a\" href=\"a.x\" media-type=\"t/a\"/>\
         <item id=\"n\" href=\"n.x\" media-type=\"t/n\" properties=\"nav\"/>\
         <item id=\"b\" href=\"b.x\" media-type=\"t/b\" properties=\"nav scripted\"/></manifest>",
    )
    .unwrap();
    let (m, nav) = Manifest::parse(&doc.children[0]).unwrap();
    assert_eq!(nav, Some(1));
    let items: Vec<(&str, &str, &str)> =
        m.items.iter().map(|i| (i.name.as_str(), i.path.as_str(), i.mime.as_str())).collect();
    assert_eq!(items, vec![("a", "a.x", "t/a"), ("n", "n.x", "t/n"), ("b", "b.x", "t/b")]);
    let doc = parse_xml("<manifest/>").unwrap();
    let (m, nav) = Manifest::parse(&doc.children[0]).unwrap();
    assert!(m.items.is_empty());
    assert_eq!(nav, None);
}

#[test]
fn spine_parse_maps_references_to_manifest_positions() {
    let m = manifest(&["a", "b", "c"]);
    let doc = parse_xml("<spine toc=\"i1\"><itemref idref=\"i2\"/><itemref/><itemref idref=\"i0\"/></spine>").unwrap();
    let (s, ncx) = Spine::parse(&m, &doc.children[0]).unwrap();
    assert_eq!(s.entries, vec![2, 0]);
    assert_eq!(ncx, Some(1));
    let doc = parse_xml("<spine toc=\"zz\"><itemref idref=\"i2\"/><itemref idref=\"zz\"/></spine>").unwrap();
    let e = Spine::parse(&m, &doc.children[0]).unwrap_err();
    assert_eq!(e.kind, PackageErrorKind::InvalidSpine);
    assert_eq!(e.detail, "zz");
    let doc = parse_xml("<spine toc=\"zz\"/>").unwrap();
    let (s, ncx) = Spine::parse(&m, &doc.children[0]).unwrap();
    assert!(s.entries.is_empty());
    assert_eq!(ncx, None);
}

#[test]
fn legacy_toc_skips_leading_info_and_nests_further_elements() {
    let m = manifest(&["A.xhtml", "b.xhtml"]);
    let s = Spine { entries: vec![1, 0] };
    let doc = parse_xml(
        "<ncx><navMap><navInfo/><navInfo/>\
         <p><l><t>One</t></l><c src=\"a.XHTML#y\"/><q><l><t>Two</t></l><c src=\"B.xhtml\"/></q>text</p>\
         <navInfo><l><t>Three</t></l><c src=\"nope\"/></navInfo>\
         </navMap></ncx>",
    )
    .unwrap();
    let toc = Toc::parse_v2(&m, &s, &doc).unwrap();
    let entries: Vec<(&str, usize, usize, Option<&str>)> =
        toc.entries().iter().map(|e| (e.name(), e.idx(), e.depth(), e.fragment())).collect();
    assert_eq!(
        entries,
        vec![("One", 1, 0, Some("y")), ("Two", 0, 1, None), ("Three", 0, 0, None)]
    );
    assert_eq!(toc.len(), 3);
    assert!(toc.play_order().is_empty());
}

#[test]
fn legacy_toc_keeps_play_orders_without_sorting_by_them() {
    let m = manifest(&["a.xhtml", "b.xhtml"]);
    let s = Spine { entries: vec![0, 1] };
    let doc = parse_xml(
        "<ncx><navMap>\
         <p playOrder=\"+7\"><l><t>Late</t></l><c src=\"b.xhtml\"/></p>\
         <p><l><t>None</t></l><c src=\"a.xhtml\"/></p>\
         <p playOrder=\"1\"><l><t>Early</t></l><c src=\"a.xhtml\"/></p>\
         </navMap></ncx>",
    )
    .unwrap();
    let toc = Toc::parse_v2(&m, &s, &doc).unwrap();
    let names: Vec<&str> = toc.entries().iter().map(|e| e.name()).collect();
    assert_eq!(names, vec!["Late", "None", "Early"]);
    assert_eq!(toc.play_order(), &vec![7, 1]);
}

#[test]
fn nav_toc_reads_the_first_toc_nav_in_document_order() {
    let m = manifest(&["nav.xhtml", "a.xhtml"]);
    let s = Spine { entries: vec![1] };
    let doc = parse_xml(
        "<html xmlns:e=\"http://www.idpf.org/2007/ops\"><head/><body>\
         <section><nav e:type=\"toc\"><h2/><ol><li><a href=\"a.xhtml\">Deep</a></li></ol></nav></section>\
         <nav e:type=\"toc\"><h2/><ol><li><a href=\"a.xhtml\">Late</a></li></ol></nav>\
         </body></html>",
    )
    .unwrap();
    let toc = Toc::parse_v3(&m, &s, 0, &doc).unwrap();
    assert_eq!(toc.entries()[0].name(), "Deep");
    assert_eq!(Toc::parse_v3(&m, &s, 5, &doc).unwrap_err().kind, PackageErrorKind::TocBadLocation);
}
