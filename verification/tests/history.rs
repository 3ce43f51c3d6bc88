use yespanda::history::History;
use yespanda::paths::FilePath;

fn path(text: &str) -> FilePath {
    FilePath::new(text)
}

#[test]
fn history_roundtrip() {
    let real = path("/tmp/opencode/real.pdf");
    let other = path("/tmp/opencode/test.pdf");

    let mut history = History::default();
    assert_eq!(history.page_for(&real), None);
    history.set(&real, 42);
    history.set(&other, 7);
    history.set(&real, 10); // re-open real.pdf: moves to front, updates page
    let saved = history.save();

    let loaded = History::load(Some(&saved));
    assert_eq!(loaded.page_for(&real), Some(10));
    assert_eq!(loaded.page_for(&other), Some(7));
    assert_eq!(loaded.entries[0].0, real);
}

#[test]
fn file_has_a_line_for_each_document() {
    let mut history = History::default();
    history.set(&path("/a.pdf"), 3);
    history.set(&path("/b\tc.pdf"), 0);
    assert_eq!(history.save(), "/b\tc.pdf\t0\n/a.pdf\t3\n");
}

#[test]
fn malformed_lines_are_skipped() {
    let loaded = History::load(Some("/a.pdf\t3\nno tab\n/b.pdf\tx\r\n/c.pdf\t +5 \r\n\t7\n/d.pdf\t-1"));
    assert_eq!(loaded.page_for(&path("/a.pdf")), Some(3));
    assert_eq!(loaded.page_for(&path("/b.pdf")), None);
    assert_eq!(loaded.page_for(&path("/c.pdf")), Some(5));
    assert_eq!(loaded.page_for(&path("")), Some(7));
    assert_eq!(loaded.page_for(&path("/d.pdf")), None);
    assert_eq!(loaded.entries.len(), 3);
    assert_eq!(History::load(None).entries.len(), 0);
}

#[test]
fn fifty_documents_are_remembered() {
    let mut history = History::default();
    for i in 0..60 {
        history.set(&path(&format!("/{i}.pdf")), i);
    }
    assert_eq!(history.entries.len(), 50);
    assert_eq!(history.page_for(&path("/59.pdf")), Some(59));
    assert_eq!(history.page_for(&path("/10.pdf")), Some(10));
    assert_eq!(history.page_for(&path("/9.pdf")), None);
    assert_eq!(history.most_recent(), Some(&path("/59.pdf")));
    assert_eq!(History::default().most_recent(), None);
    // Coming back to a known document forgets nothing; a new one takes the
    // place of the oldest alone.
    history.set(&path("/30.pdf"), 0);
    assert_eq!(history.page_for(&path("/10.pdf")), Some(10));
    history.set(&path("/new.pdf"), 1);
    assert_eq!(history.page_for(&path("/10.pdf")), None);
    assert_eq!(history.page_for(&path("/11.pdf")), Some(11));
    assert_eq!(history.entries.len(), 50);
}

#[test]
fn history_is_ordered_by_the_last_visit() {
    let mut history = History::default();
    for (name, page) in [("/a", 1), ("/b", 2), ("/c", 3), ("/a", 4), ("/b//", 5)] {
        history.set(&path(name), page);
    }
    let copy = history.clone();
    let seen: Vec<(String, usize)> = copy.entries.iter().map(|(p, n)| (p.text(), *n)).collect();
    assert_eq!(
        seen,
        vec![("/b//".to_string(), 5), ("/a".to_string(), 4), ("/c".to_string(), 3)]
    );
    for i in 0..120 {
        history.set(&path(&format!("/{}", i % 70)), i);
    }
    let pages: Vec<usize> = history.entries.iter().map(|(_, n)| *n).collect();
    assert_eq!(pages, (70..120).rev().collect::<Vec<usize>>());
}

#[test]
fn paths_are_compared_by_component() {
    let mut history = History::default();
    history.set(&path("/a//b/./c.pdf"), 1);
    history.set(&path("/a/b/c.pdf"), 2);
    assert_eq!(history.entries.len(), 1);
    assert_eq!(history.page_for(&path("/a/b//c.pdf/")), Some(2));
    assert_eq!(history.page_for(&path("/a/b/../b/c.pdf")), None);
}

#[test]
fn bytes_that_are_no_text_are_mended_when_shown() {
    let odd = FilePath { bytes: vec![b'/', b'a', 0xff, b'b'] };
    assert_eq!(odd.text(), "/a\u{fffd}b");
    assert_eq!(odd.file_name(), Some("a\u{fffd}b".to_string()));
    let mut history = History::default();
    history.set(&odd, 4);
    assert_eq!(history.save(), "/a\u{fffd}b\t4\n");
}

#[test]
fn history_lies_beside_the_settings() {
    assert_eq!(
        History::path(None, Some(path("/home/me"))).text(),
        "/home/me/.config/yespanda/history"
    );
}

#[test]
fn file_names_of_paths() {
    assert_eq!(path("/tmp/x.pdf").file_name(), Some("x.pdf".to_string()));
    assert_eq!(path("/tmp/x.pdf/./").file_name(), Some("x.pdf".to_string()));
    assert_eq!(path("/tmp/..").file_name(), None);
    assert_eq!(path("/").file_name(), None);
    assert_eq!(path("").file_name(), None);
    assert_eq!(path("/a").join("/b").text(), "/b");
    assert_eq!(path("/a/").join("b").text(), "/a/b");
}
