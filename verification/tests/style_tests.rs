use typebook::position::Len;
use typebook::style::{Style, Styling};

fn at(n: usize) -> Len {
    Len::new(n, n)
}

#[test]
fn style_union_and_contains() {
    let both = Style::italic().union(Style::bold());
    assert_eq!(both.bits, 3);
    assert!(both.contains(Style::italic()));
    assert!(both.contains(Style::bold()));
    assert!(!Style::italic().contains(Style::bold()));
    assert_eq!(Style::empty().union(Style::bold()), Style::bold());
    assert_eq!(Style::bold().union(Style::empty()), Style::bold());
    assert!(Style::empty().is_empty());
    assert!(!Style::bold().is_empty());
}

#[test]
fn empty_index_gives_one_plain_segment() {
    let styling = Styling::builder().build();
    assert_eq!(styling.iter(at(0), at(10)), vec![(Style::empty(), at(10))]);
    assert_eq!(styling.iter(at(4), at(4)), vec![]);
}

#[test]
fn segments_cover_the_range_in_order() {
    let mut b = Styling::builder();
    b.add(Style::italic(), at(2)..at(5));
    b.add(Style::bold(), at(7)..at(9));
    let styling = b.build();
    let segs = styling.iter(at(0), at(12));
    assert_eq!(
        segs,
        vec![
            (Style::empty(), at(2)),
            (Style::italic(), at(3)),
            (Style::empty(), at(2)),
            (Style::bold(), at(2)),
            (Style::empty(), at(3)),
        ]
    );
    let total: usize = segs.iter().map(|s| s.1.bytes).sum();
    assert_eq!(total, 12);
}

#[test]
fn query_clips_segments_to_its_range() {
    let mut b = Styling::builder();
    b.add(Style::italic(), at(2)..at(5));
    b.add(Style::bold(), at(7)..at(9));
    let styling = b.build();
    assert_eq!(styling.iter(at(3), at(8)), vec![
        (Style::italic(), at(2)),
        (Style::empty(), at(2)),
        (Style::bold(), at(1)),
    ]);
    assert_eq!(styling.iter(at(3), at(4)), vec![(Style::italic(), at(1))]);
    assert_eq!(styling.iter(at(5), at(7)), vec![(Style::empty(), at(2))]);
    assert_eq!(styling.iter(at(9), at(20)), vec![(Style::empty(), at(11))]);
}

#[test]
fn overlapping_runs_merge_by_or() {
    let mut b = Styling::builder();
    b.add(Style::italic(), at(0)..at(6));
    b.add(Style::bold(), at(4)..at(8));
    let styling = b.build();
    assert_eq!(
        styling.iter(at(0), at(8)),
        vec![
            (Style::italic(), at(4)),
            (Style::italic().union(Style::bold()), at(2)),
            (Style::bold(), at(2)),
        ]
    );
}

#[test]
fn adjacent_runs_of_one_style_collapse() {
    let mut b = Styling::builder();
    b.add(Style::bold(), at(0)..at(3));
    b.add(Style::bold(), at(3)..at(7));
    b.add(Style::empty(), at(7)..at(9));
    let styling = b.build();
    assert_eq!(styling.iter(at(0), at(10)), vec![(Style::bold(), at(7)), (Style::empty(), at(3))]);
}

#[test]
fn runs_may_come_in_any_order_and_empty_ranges_cover_nothing() {
    let mut b = Styling::builder();
    b.add(Style::bold(), at(5)..at(6));
    b.add(Style::italic(), at(1)..at(2));
    b.add(Style::italic(), at(4)..at(4));
    b.add(Style::bold(), at(9)..at(3));
    let styling = b.build();
    assert_eq!(
        styling.iter(at(0), at(7)),
        vec![
            (Style::empty(), at(1)),
            (Style::italic(), at(1)),
            (Style::empty(), at(3)),
            (Style::bold(), at(1)),
            (Style::empty(), at(1)),
        ]
    );
}

#[test]
fn segment_lengths_count_bytes_and_chars_apart() {
    // "aé—z": a, é (2 bytes), — (3 bytes), z
    let mut b = Styling::builder();
    b.add(Style::italic(), Len::new(1, 1)..Len::new(6, 3));
    let styling = b.build();
    assert_eq!(
        styling.iter(Len::new(0, 0), Len::new(7, 4)),
        vec![
            (Style::empty(), Len::new(1, 1)),
            (Style::italic(), Len::new(5, 2)),
            (Style::empty(), Len::new(1, 1)),
        ]
    );
}

#[test]
fn point_queries_tile_the_buffer() {
    let mut b = Styling::builder();
    b.add(Style::italic(), at(2)..at(5));
    b.add(Style::bold(), at(4)..at(9));
    let styling = b.build();
    let whole = styling.iter(at(0), at(12));
    let mut expected = Vec::new();
    for seg in whole.iter() {
        for _ in 0..seg.1.bytes {
            expected.push(seg.0);
        }
    }
    assert_eq!(expected.len(), 12);
    for p in 0..12 {
        assert_eq!(styling.iter(at(p), at(p + 1)), vec![(expected[p], at(1))]);
    }
}
