use yespanda::double::Double;
use yespanda::pdf::{
    document_uri, image_side, kept_matches, pack_rows, MatchRect, OutlineItem, OutlineNode, PdfDoc,
    Target, TocEntry,
};
use yespanda::paths::FilePath;
use yespanda::toc::{
    has_children, toc_row, visible_indices, TocEffect, TocInput, TocOutput, TocSidebar,
};

fn entry(depth: usize) -> TocEntry {
    TocEntry { title: "x".into(), page: 0, depth }
}

#[test]
fn children_detection_stops_at_siblings() {
    // A(d0) with no children, followed by a sibling C(d0) that has a
    // child D(d1). A must NOT count C's subtree as its own children.
    let entries = [entry(0), entry(0), entry(1)];
    assert!(!has_children(&entries, 0));
    assert!(has_children(&entries, 1));
    assert!(!has_children(&entries, 2));
}

#[test]
fn children_detection_nested() {
    // A(d0) with child B(d1), then sibling C(d0) with child D(d1).
    let entries = [entry(0), entry(1), entry(0), entry(1)];
    assert!(has_children(&entries, 0));
    assert!(!has_children(&entries, 1));
    assert!(has_children(&entries, 2));
    assert!(!has_children(&entries, 3));
}

#[test]
fn collapse_hides_subtree() {
    // A(0), B(1) child of A, C(0) sibling, D(1) child of C.
    let entries = [entry(0), entry(1), entry(0), entry(1)];

    // Nothing collapsed: all four visible.
    assert_eq!(visible_indices(&entries, &[false; 4]), vec![0, 1, 2, 3]);

    // Collapse C (index 2): its child D (index 3) disappears, C stays.
    let mut collapsed = [false; 4];
    collapsed[2] = true;
    assert_eq!(visible_indices(&entries, &collapsed), vec![0, 1, 2]);

    // Collapse A (index 0): its child B (index 1) disappears; the
    // sibling C (index 2) remains with its child D (index 3).
    let mut collapsed = [false; 4];
    collapsed[0] = true;
    assert_eq!(visible_indices(&entries, &collapsed), vec![0, 2, 3]);

    // Both collapsed: only A and C show.
    let mut collapsed = [false; 4];
    collapsed[0] = true;
    collapsed[2] = true;
    assert_eq!(visible_indices(&entries, &collapsed), vec![0, 2]);
}

#[test]
fn hidden_entry_hides_all_below_it() {
    let entries = [entry(0), entry(1), entry(2), entry(1), entry(0)];
    assert_eq!(
        visible_indices(&entries, &[true, false, false, false, false]),
        vec![0, 4]
    );
    assert_eq!(
        visible_indices(&entries, &[false, true, false, false, false]),
        vec![0, 1, 3, 4]
    );
}

fn sidebar() -> TocSidebar {
    let mut toc = TocSidebar::new();
    let effects = toc.update(
        TocInput::SetEntries(vec![entry(0), entry(1), entry(0), entry(1)]),
        None,
    );
    assert_eq!(effects, vec![TocEffect::Rebuild { keep_scroll: false }]);
    toc
}

#[test]
fn collapsing_and_expanding_under_the_cursor() {
    let mut toc = sidebar();
    let effects = toc.update(TocInput::Collapse, Some(0));
    assert_eq!(
        effects,
        vec![TocEffect::Rebuild { keep_scroll: true }, TocEffect::Select(0)]
    );
    assert_eq!(toc.rows, vec![0, 2, 3]);
    // A second collapse does nothing; activating expands, and collapses again.
    assert_eq!(toc.update(TocInput::Collapse, Some(0)), vec![]);
    let toggled = vec![TocEffect::Rebuild { keep_scroll: true }, TocEffect::Select(0)];
    assert_eq!(toc.update(TocInput::Activate, Some(0)), toggled);
    assert_eq!(toc.rows, vec![0, 1, 2, 3]);
    assert_eq!(toc.update(TocInput::Activate, Some(0)), toggled);
    assert_eq!(toc.collapsed, vec![true, false, false, false]);
    assert_eq!(toc.rows, vec![0, 2, 3]);
    toc.update(TocInput::Activate, Some(0));
    // A leaf is opened.
    assert_eq!(
        toc.update(TocInput::Activate, Some(1)),
        vec![TocEffect::Output(TocOutput::GoTo(1))]
    );
    assert_eq!(toc.update(TocInput::Collapse, Some(1)), vec![]);
    assert_eq!(toc.update(TocInput::Activate, None), vec![]);
}

#[test]
fn rows_are_mapped_to_entries() {
    let mut toc = sidebar();
    toc.update(TocInput::Collapse, Some(0));
    assert_eq!(
        toc.update(TocInput::OpenAt(1), None),
        vec![TocEffect::Output(TocOutput::GoTo(2))]
    );
    assert_eq!(toc.update(TocInput::OpenAt(9), None), vec![]);
    assert_eq!(
        toc.update(TocInput::Highlight(Some(3)), None),
        vec![TocEffect::Mark(Some(2))]
    );
    assert_eq!(toc.update(TocInput::Highlight(Some(1)), None), vec![TocEffect::Mark(None)]);
    assert_eq!(toc.update(TocInput::Focus(Some(3)), None), vec![TocEffect::Select(2)]);
    assert_eq!(toc.update(TocInput::Focus(Some(1)), None), vec![TocEffect::Select(0)]);
}

#[test]
fn cursor_stays_in_the_list() {
    let mut toc = sidebar();
    assert_eq!(toc.update(TocInput::MoveCursor(1), None), vec![TocEffect::Select(1)]);
    assert_eq!(toc.update(TocInput::MoveCursor(1), Some(3)), vec![TocEffect::Select(3)]);
    assert_eq!(toc.update(TocInput::MoveCursor(-1), Some(0)), vec![TocEffect::Select(0)]);
    let mut empty = TocSidebar::new();
    assert_eq!(empty.update(TocInput::MoveCursor(1), None), vec![]);
    assert_eq!(empty.update(TocInput::Focus(None), None), vec![]);
}

#[test]
fn row_shows_title_page_and_depth() {
    let row = toc_row(&TocEntry { title: "Part".into(), page: 9, depth: 2 });
    assert_eq!(row.tooltip, "Page 10");
    assert_eq!(row.margin, 30);
    assert!(!row.heading);
    assert!(toc_row(&entry(0)).heading);
}

fn leaf(title: &str, target: Target) -> OutlineNode {
    OutlineNode {
        item: Some(OutlineItem { title: title.into(), target }),
        children: Vec::new(),
    }
}

#[test]
fn outline_is_flattened_in_order() {
    let doc = PdfDoc {
        page_count: 5,
        outline: vec![
            OutlineNode {
                item: Some(OutlineItem {
                    title: " One ".into(),
                    target: Target::Page { number: 1, named: None },
                }),
                children: vec![leaf("Inner", Target::Named(Some(3)))],
            },
            leaf("   ", Target::Page { number: 2, named: None }),
            leaf("Far", Target::Page { number: 99, named: None }),
            leaf("By name", Target::Page { number: 0, named: Some(4) }),
        ],
    };
    let toc = doc.toc();
    let seen: Vec<(&str, usize, usize)> =
        toc.iter().map(|e| (e.title.as_str(), e.page, e.depth)).collect();
    assert_eq!(
        seen,
        vec![("One", 0, 0), ("Inner", 2, 1), ("Far", 4, 0), ("By name", 3, 0)]
    );
    assert_eq!(doc.n_pages(), 5);
    assert_eq!(PdfDoc { page_count: -1, outline: vec![] }.n_pages(), 0);
}

#[test]
fn image_rows_are_packed() {
    let data = [1, 2, 3, 0, 4, 5, 6, 0];
    assert_eq!(pack_rows(&data, 4, 3), vec![1, 2, 3, 4, 5, 6]);
    assert_eq!(pack_rows(&data, 4, 4), data.to_vec());
    assert_eq!(image_side(0), 1);
    assert_eq!(image_side(842), 842);
}

#[test]
fn matches_without_area_are_left_out() {
    let d = |v: f64| Double { bits: v.to_bits() };
    let rect = |w: f64, h: f64| MatchRect { x: d(1.0), y: d(2.0), w: d(w), h: d(h) };
    let found = [rect(3.0, 4.0), rect(0.0, 4.0), rect(3.0, -1.0), rect(f64::NAN, 1.0), rect(5.0, 0.5)];
    let kept = kept_matches(&found);
    assert_eq!(kept.len(), 2);
    assert_eq!(kept[0], found[0]);
    assert_eq!(kept[1], found[4]);
}

#[test]
fn document_uri_falls_back_to_the_path() {
    let path = FilePath::new("/tmp/a b.pdf");
    assert_eq!(
        document_uri(Some("file:///tmp/a%20b.pdf".to_string()), &path),
        "file:///tmp/a%20b.pdf"
    );
    assert_eq!(document_uri(None, &path), "file:///tmp/a b.pdf");
}
