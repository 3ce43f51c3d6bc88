use yespanda::app::{sidebar_returns, AppModel, AppMsg, Around, Layout};
use yespanda::config::{Config, SidebarConfig, WindowConfig};
use yespanda::double::{
    count_before, reveal_target, scroll_target, widest_page, Double,
};
use yespanda::effect::{Effect, ScrollStep};
use yespanda::history::History;
use yespanda::paths::FilePath;
use yespanda::pdf::{MatchRect, OutlineItem, OutlineNode, PdfDoc, Target};
use yespanda::render::{
    render_order, rendered, retain_pages, visible_window, worker_count, Claim, PageJob, PoolState,
    RenderJob, Worker, WorkerStep,
};

fn d(value: f64) -> Double {
    Double { bits: value.to_bits() }
}

fn f(value: Double) -> f64 {
    f64::from_bits(value.bits)
}

fn around() -> Around {
    Around {
        converted: None,
        home: Some(FilePath::new("/home/me")),
        zoomed: d(1.25),
        width: 800,
        fit_zoom: d(1.5),
        sidebar_collapsed: false,
    }
}

/// Pages of 100 pixels, seen through a view of 150 pixels from `top` on.
fn layout(pages: usize, top: f64) -> Layout {
    Layout {
        starts: (0..pages).map(|i| d(i as f64 * 100.0)).collect(),
        top_edge: d(top - 12.0),
        bottom: d(top + 150.0),
        centre: d(top + 75.0),
    }
}

fn entry(title: &str, number: i32) -> OutlineNode {
    OutlineNode {
        item: Some(OutlineItem {
            title: title.to_string(),
            target: Target::Page { number, named: None },
        }),
        children: Vec::new(),
    }
}

fn document(pages: i32) -> PdfDoc {
    PdfDoc { page_count: pages, outline: vec![entry("A", 1), entry("B", 5), entry("C", 5), entry("D", 3)] }
}

fn reader() -> AppModel {
    AppModel::new(Config::default(), History::default())
}

fn opened(pages: i32) -> AppModel {
    let mut model = reader();
    model.load_document(FilePath::new("/tmp/book.pdf"), &document(pages), &layout(0, 0.0));
    model
}

fn send(model: &mut AppModel, msg: AppMsg) -> Vec<Effect> {
    model.update(msg, &around())
}

fn rect(y: f64) -> MatchRect {
    MatchRect { x: d(1.0), y: d(y), w: d(2.0), h: d(3.0) }
}

fn label(effects: &[Effect]) -> Option<&str> {
    effects.iter().find_map(|e| match e {
        Effect::SetMatchLabel(text) => Some(text.as_str()),
        _ => None,
    })
}

fn scrolled(effects: &[Effect]) -> Option<usize> {
    effects.iter().find_map(|e| match e {
        Effect::ScrollToPage(page) => Some(*page),
        Effect::ScrollToMatch { page, .. } => Some(*page),
        _ => None,
    })
}

#[test]
fn file_is_opened_once() {
    let mut model = reader();
    let effects = send(&mut model, AppMsg::OpenFile("/tmp/book.pdf".to_string()));
    assert!(matches!(effects[0], Effect::Present));
    assert!(matches!(&effects[1], Effect::OpenDocument(p) if p.text() == "/tmp/book.pdf"));
    let mut model = opened(9);
    let effects = send(&mut model, AppMsg::OpenFile("/tmp//book.pdf".to_string()));
    assert_eq!(effects.len(), 1);
    assert!(matches!(effects[0], Effect::Present));
    let mut with = around();
    with.converted = Some(FilePath::new("/tmp/other.pdf"));
    let effects = model.update(AppMsg::OpenFile("file:///tmp/other.pdf".to_string()), &with);
    assert!(matches!(&effects[1], Effect::OpenDocument(p) if p.text() == "/tmp/other.pdf"));
}

#[test]
fn opening_resets_the_reader() {
    let mut model = reader();
    let effects =
        model.load_document(FilePath::new("/tmp/book.pdf"), &document(9), &layout(0, 0.0));
    assert!(matches!(effects[0], Effect::SaveHistory));
    assert!(effects.iter().any(|e| matches!(e, Effect::SetTitle(t) if t == "book.pdf")));
    assert!(matches!(effects[effects.len() - 1], Effect::SendViewportChanged));
    assert_eq!(model.render_gen, 2);
    assert_eq!(model.n_pages, 9);
    assert_eq!(f(model.zoom), 1.0);
    assert_eq!(model.toc_entries.len(), 4);
    assert_eq!(model.search.generation, 1);
    assert_eq!(model.pending_restore, None);
    let effects = model.load_document(FilePath::new("/"), &document(9), &layout(9, 0.0));
    assert!(effects.iter().any(|e| matches!(e, Effect::SetTitle(t) if t == "Document")));
}

#[test]
fn position_survives_a_visit() {
    let mut model = opened(9);
    // The middle of the view is at 475: page 4.
    model.load_document(FilePath::new("/tmp/other.pdf"), &document(3), &layout(9, 400.0));
    assert_eq!(model.history.page_for(&FilePath::new("/tmp/book.pdf")), Some(4));
    model.load_document(FilePath::new("/tmp/book.pdf"), &document(9), &layout(3, 100.0));
    assert_eq!(model.pending_restore, Some(4));
    assert_eq!(model.history.page_for(&FilePath::new("/tmp/other.pdf")), Some(1));
}

#[test]
fn position_is_restored_once_the_zoom_has_settled() {
    let mut history = History::default();
    history.set(&FilePath::new("/tmp/book.pdf"), 6);
    let mut model = AppModel::new(Config::default(), history);
    model.load_document(FilePath::new("/tmp/book.pdf"), &document(9), &layout(0, 0.0));
    // Not fitted yet: nothing is restored or recorded.
    assert_eq!(scrolled(&model.settle(&layout(9, 0.0))), None);
    assert!(model.update_history_position(&layout(9, 0.0)).is_empty());
    assert_eq!(model.pending_restore, Some(6));
    send(&mut model, AppMsg::ViewportChanged);
    assert_eq!(scrolled(&model.settle(&layout(9, 0.0))), Some(6));
    assert_eq!(model.pending_restore, None);
    let effects = model.update_history_position(&layout(9, 600.0));
    assert!(matches!(effects[0], Effect::ScheduleHistorySave));
    assert!(model.update_history_position(&layout(9, 600.0)).is_empty());
    assert!(matches!(model.history_due()[0], Effect::SaveHistory));
    assert!(!model.history_save_pending);
}

#[test]
fn last_file_is_opened_again() {
    let mut model = reader();
    assert!(model.start().is_empty());
    let effects =
        model.load_document(FilePath::new("/tmp/book.pdf"), &document(9), &layout(0, 0.0));
    assert!(effects.iter().any(|e| matches!(e, Effect::SaveConfig)));
    send(&mut model, AppMsg::ZoomIn);
    let start = model.start();
    assert_eq!(start.len(), 1);
    assert!(matches!(&start[0], Effect::SendOpen(uri) if uri == "/tmp/book.pdf"));
    // A path that is no text is not remembered as the last file.
    let odd = FilePath { bytes: vec![b'/', 0xff] };
    assert_eq!(odd.utf8_text(), None);
    let effects = model.load_document(odd, &document(9), &layout(9, 0.0));
    assert!(!effects.iter().any(|e| matches!(e, Effect::SaveConfig)));
    assert_eq!(model.config.last_file, Some("/tmp/book.pdf".to_string()));
}

#[test]
fn fitting_follows_the_width() {
    let mut model = opened(9);
    let effects = send(&mut model, AppMsg::ViewportChanged);
    assert_eq!(effects.len(), 3);
    assert_eq!(f(model.zoom), 1.5);
    assert_eq!(model.last_viewport_width, 800);
    assert_eq!(model.render_gen, 3);
    let mut near = around();
    near.width = 807;
    assert_eq!(model.update(AppMsg::ViewportChanged, &near).len(), 1);
    near.width = 792;
    near.fit_zoom = d(9.0);
    assert_eq!(model.update(AppMsg::ViewportChanged, &near).len(), 3);
    assert_eq!(f(model.zoom), 4.0);
    near.width = 49;
    assert_eq!(model.update(AppMsg::ViewportChanged, &near).len(), 1);
    near.width = 50;
    near.fit_zoom = d(0.1);
    model.update(AppMsg::ViewportChanged, &near);
    assert_eq!(f(model.zoom), 0.25);
}

#[test]
fn zooming_by_hand_ends_fitting() {
    let mut model = opened(9);
    let effects = send(&mut model, AppMsg::ZoomIn);
    assert!(matches!(effects[0], Effect::SaveConfig));
    assert_eq!(f(model.zoom), 1.25);
    assert!(!model.fit_mode);
    assert!(!model.config.fit_width);
    assert_eq!(send(&mut model, AppMsg::ViewportChanged).len(), 1);
    let mut far = around();
    far.zoomed = d(4.5);
    model.update(AppMsg::ZoomIn, &far);
    assert_eq!(f(model.zoom), 4.0);
    far.zoomed = d(0.2);
    model.update(AppMsg::ZoomOut, &far);
    assert_eq!(f(model.zoom), 0.25);
    assert!(send(&mut reader(), AppMsg::ZoomOut).is_empty());
}

#[test]
fn typed_pages_are_clamped() {
    let mut model = opened(9);
    assert_eq!(scrolled(&send(&mut model, AppMsg::GoToPage(3))), Some(2));
    assert_eq!(scrolled(&send(&mut model, AppMsg::GoToPage(0))), Some(0));
    assert_eq!(scrolled(&send(&mut model, AppMsg::GoToPage(9))), Some(8));
    assert_eq!(scrolled(&send(&mut model, AppMsg::GoToPage(u32::MAX))), Some(8));
    assert!(send(&mut reader(), AppMsg::GoToPage(1)).is_empty());
}

#[test]
fn stale_images_are_dropped() {
    let mut model = opened(9);
    let page = |generation: u64, zoom: f64, index: usize| AppMsg::PageRendered {
        generation,
        zoom: d(zoom),
        index,
        result: Ok((1, 1, vec![1, 2, 3, 4])),
    };
    assert!(send(&mut model, page(1, 1.0, 0)).is_empty());
    assert!(send(&mut model, page(2, 1.5, 0)).is_empty());
    assert!(send(&mut model, page(2, 1.0, 9)).is_empty());
    let effects = send(&mut model, page(2, 1.0, 0));
    assert!(matches!(&effects[0], Effect::StoreImage { index: 0, bytes, .. } if bytes.len() == 4));
    assert!(send(&mut model, page(2, 1.0, 0)).is_empty());
    let failed = AppMsg::PageRendered {
        generation: 2,
        zoom: d(1.0),
        index: 3,
        result: Err("broken".to_string()),
    };
    let effects = send(&mut model, failed);
    assert!(matches!(&effects[0], Effect::ReportPage { page: 4, error } if error == "broken"));
    assert_eq!(model.painted, vec![0]);
    send(&mut model, AppMsg::ZoomIn);
    assert!(model.painted.is_empty());
}

#[test]
fn chosen_entry_stays_highlighted_on_its_page() {
    let mut model = opened(9);
    let effects = send(&mut model, AppMsg::GoToEntry(1));
    assert!(matches!(effects[0], Effect::Highlight(Some(1))));
    assert_eq!(scrolled(&effects), Some(4));
    assert!(matches!(effects[2], Effect::FocusContent));
    // Page 4: the chosen entry wins over the later one on the same page.
    model.settle(&layout(9, 400.0));
    assert_eq!(model.highlighted_toc, Some(1));
    // Page 2 is covered by the entry that comes last, page 4 by the third.
    model.settle(&layout(9, 200.0));
    assert_eq!(model.highlighted_toc, Some(3));
    assert_eq!(model.pinned_toc, None);
    model.settle(&layout(9, 400.0));
    assert_eq!(model.highlighted_toc, Some(2));
    assert_eq!(model.active_toc_entry(1), Some(0));
    assert_eq!(model.active_toc_entry(8), Some(2));
    assert!(send(&mut model, AppMsg::GoToEntry(4)).is_empty());
}

#[test]
fn sidebar_is_focused_on_what_is_on_screen() {
    let mut model = opened(9);
    assert!(matches!(send(&mut model, AppMsg::FocusSidebar)[0], Effect::FocusEntry(Some(0))));
    send(&mut model, AppMsg::GoToEntry(2));
    assert!(matches!(send(&mut model, AppMsg::FocusSidebar)[0], Effect::FocusEntry(Some(2))));
    assert!(matches!(send(&mut reader(), AppMsg::FocusSidebar)[0], Effect::FocusEntry(None)));
    let effects = send(&mut model, AppMsg::ToggleSidebar);
    assert!(matches!(effects[0], Effect::CollapseSidebar(true)));
    assert!(model.config.sidebar.collapsed);
    assert!(sidebar_returns(false, true));
    assert!(!sidebar_returns(true, true));
    assert!(!sidebar_returns(false, false));
}

#[test]
fn picker_is_opened_once() {
    let mut model = opened(9);
    let effects = send(&mut model, AppMsg::PickFile);
    assert!(matches!(
        &effects[0],
        Effect::OpenPicker { root, width: 720, height: 520 } if root == "/home/me"
    ));
    assert!(send(&mut model, AppMsg::PickFile).is_empty());
    let effects = send(&mut model, AppMsg::PickerResult(Some(FilePath::new("/x.pdf"))));
    assert!(matches!(&effects[1], Effect::SendOpen(uri) if uri == "/x.pdf"));
    assert!(!model.picker_open);
    assert_eq!(send(&mut model, AppMsg::PickerResult(None)).len(), 1);
}

#[test]
fn scrolling_and_focus() {
    let mut model = opened(9);
    assert!(matches!(send(&mut model, AppMsg::ScrollDown)[0], Effect::Scroll(ScrollStep::Down)));
    assert!(matches!(send(&mut model, AppMsg::ScrollUp)[0], Effect::Scroll(ScrollStep::Up)));
    assert!(matches!(send(&mut model, AppMsg::ScrollLeft)[0], Effect::Scroll(ScrollStep::Left)));
    assert!(matches!(send(&mut model, AppMsg::ScrollRight)[0], Effect::Scroll(ScrollStep::Right)));
    assert!(matches!(send(&mut model, AppMsg::ScrollTop)[0], Effect::Scroll(ScrollStep::Start)));
    assert!(matches!(send(&mut model, AppMsg::ScrollBottom)[0], Effect::Scroll(ScrollStep::End)));
    assert!(matches!(send(&mut model, AppMsg::FocusPdf)[0], Effect::FocusContent));
}

#[test]
fn failure_and_closing() {
    let mut model = reader();
    let effects = model.show_error("no such file".to_string());
    assert!(matches!(
        &effects[0],
        Effect::ShowStatus { title, description }
            if title == "Could not open document" && description == "no such file"
    ));
    assert!(matches!(&effects[1], Effect::SetTitle(t) if t == "Error"));
    let effects = model.close(
        WindowConfig { width: 5, height: 6, maximized: true },
        SidebarConfig { width_fraction: d(0.3), collapsed: true },
    );
    assert_eq!(effects.len(), 2);
    assert_eq!(model.config.window.height, 6);
    assert_eq!(f(model.config.sidebar.width_fraction), 0.3);
}

#[test]
fn search_visits_the_matches_round_and_round() {
    let mut model = opened(9);
    assert_eq!(send(&mut model, AppMsg::OpenSearch).len(), 2);
    let effects = send(&mut model, AppMsg::SearchQuery("needle".to_string()));
    assert!(matches!(&effects[0], Effect::ScheduleSearch(q) if q == "needle"));
    let effects = send(&mut model, AppMsg::SearchRun("needle".to_string()));
    assert!(matches!(
        &effects[0],
        Effect::Scan { n_pages: 9, generation: 2, query, .. } if query == "needle"
    ));
    // Nothing on the first page: the first match is on the second.
    let hits = vec![vec![], vec![rect(1.0), rect(2.0)], vec![], vec![rect(3.0)]];
    assert!(send(&mut model, AppMsg::SearchResults { generation: 1, hits: hits.clone() }).is_empty());
    let effects = send(&mut model, AppMsg::SearchResults { generation: 2, hits });
    assert_eq!(label(&effects), Some("1/3"));
    assert_eq!(scrolled(&effects), Some(1));
    assert_eq!(model.search.current, Some((1, 0)));
    assert_eq!(model.search.highlights(1), vec![(rect(1.0), true), (rect(2.0), false)]);
    assert!(model.search.highlights(20).is_empty());
    let effects = send(&mut model, AppMsg::SearchPrev);
    assert_eq!(label(&effects), Some("3/3"));
    assert_eq!(model.search.current, Some((3, 0)));
    assert!(matches!(&effects[1], Effect::Redraw(pages) if *pages == vec![1, 3]));
    let effects = send(&mut model, AppMsg::SearchNext);
    assert_eq!(label(&effects), Some("1/3"));
    assert_eq!(send(&mut model, AppMsg::CloseSearch).len(), 2);
    assert!(send(&mut model, AppMsg::CloseSearch).is_empty());
    // The matches outlive the search bar.
    assert_eq!(label(&send(&mut model, AppMsg::SearchNext)), Some("2/3"));
    // A blank query drops them.
    let effects = send(&mut model, AppMsg::SearchQuery("  ".to_string()));
    assert_eq!(label(&effects), Some(""));
    assert!(send(&mut model, AppMsg::SearchNext).is_empty());
}

#[test]
fn search_without_matches_or_document() {
    let mut model = opened(9);
    let effects = send(&mut model, AppMsg::SearchResults { generation: 1, hits: vec![vec![]] });
    assert_eq!(label(&effects), Some("No matches"));
    assert_eq!(model.search.current, None);
    assert!(send(&mut reader(), AppMsg::SearchRun("x".to_string())).is_empty());
    let mut empty = opened(0);
    assert!(send(&mut empty, AppMsg::SearchRun("x".to_string())).is_empty());
    assert_eq!(empty.search.generation, 1);
}

#[test]
fn typing_again_cancels_the_scheduled_search() {
    let mut model = opened(9);
    send(&mut model, AppMsg::SearchQuery("a".to_string()));
    let effects = send(&mut model, AppMsg::SearchQuery("ab".to_string()));
    assert!(matches!(effects[0], Effect::CancelSearch));
    assert!(matches!(&effects[1], Effect::ScheduleSearch(q) if q == "ab"));
    let effects =
        model.load_document(FilePath::new("/tmp/other.pdf"), &document(2), &layout(9, 0.0));
    assert!(effects.iter().any(|e| matches!(e, Effect::CancelSearch)));
}

#[test]
fn view_renders_from_the_middle_outwards() {
    let mut model = opened(20);
    model.painted = vec![6, 0, 19];
    // Pages 5 and 6 and a part of 7 show; two more are rendered on each side.
    let effects = model.settle(&layout(20, 512.0));
    match &effects[0] {
        Effect::Render(job) => {
            assert_eq!(job.generation, 2);
            assert_eq!(f(job.zoom), 1.0);
            assert_eq!(job.order, vec![5, 7, 4, 8, 3]);
        }
        other => panic!("{other:?} comes first"),
    }
    assert!(matches!(&effects[1], Effect::KeepImages(pages) if *pages == vec![6, 0]));
    assert!(matches!(effects[effects.len() - 1], Effect::RecordPosition));
}

#[test]
fn window_and_order_of_pages() {
    let starts: Vec<Double> = (0..6).map(|i| d(i as f64 * 100.0)).collect();
    assert_eq!(visible_window(&starts, d(-12.0), d(150.0)), (0, 4));
    assert_eq!(visible_window(&starts, d(288.0), d(450.0)), (1, 6));
    assert_eq!(render_order(2, 7, &[]), vec![4, 3, 5, 2, 6]);
    assert_eq!(render_order(2, 6, &[4]), vec![3, 5, 2]);
    assert!(render_order(5, 5, &[]).is_empty());
    assert_eq!(retain_pages(&[0, 1, 5, 14, 15], 5, 10), vec![1, 5, 14]);
    assert_eq!(count_before(&starts, d(100.0), false), 1);
    assert_eq!(count_before(&starts, d(100.0), true), 2);
    assert_eq!(count_before(&starts, d(f64::NAN), true), 0);
}

#[test]
fn pool_hands_out_each_page_once() {
    let mut pool = PoolState::default();
    assert_eq!(pool.claim(), Claim::Wait);
    pool.request(RenderJob { generation: 4, zoom: d(2.0), order: vec![3, 1] });
    let job = |index: usize| PageJob { generation: 4, zoom: d(2.0), index };
    assert_eq!(pool.claim(), Claim::Take(job(3)));
    assert_eq!(pool.claim(), Claim::Take(job(1)));
    assert_eq!(pool.claim(), Claim::Wait);
    pool.request(RenderJob { generation: 4, zoom: d(2.0), order: vec![3] });
    assert_eq!(pool.claim(), Claim::Take(job(3)));
    pool.stop();
    assert_eq!(pool.claim(), Claim::Stop);
}

#[test]
fn worker_warns_once() {
    let page = PageJob { generation: 1, zoom: d(1.0), index: 2 };
    let mut worker = Worker::new(false);
    assert_eq!(worker.step(Claim::Stop), WorkerStep::Stop);
    assert_eq!(worker.step(Claim::Wait), WorkerStep::Wait);
    assert_eq!(worker.step(Claim::Take(page)), WorkerStep::Open(page));
    assert_eq!(worker.tried_to_open(page, false), WorkerStep::BackOff { warn: true });
    assert_eq!(worker.tried_to_open(page, false), WorkerStep::BackOff { warn: false });
    assert_eq!(worker.tried_to_open(page, true), WorkerStep::Render(page));
    assert_eq!(worker.step(Claim::Take(page)), WorkerStep::Render(page));
    assert_eq!(Worker::new(true).step(Claim::Take(page)), WorkerStep::Render(page));
    assert_eq!(
        rendered(page, Err("x".to_string())),
        AppMsg::PageRendered {
            generation: 1,
            zoom: d(1.0),
            index: 2,
            result: Err("x".to_string()),
        }
    );
    assert_eq!(worker_count(None), 2);
    assert_eq!(worker_count(Some(0)), 1);
    assert_eq!(worker_count(Some(3)), 3);
    assert_eq!(worker_count(Some(64)), 4);
}

#[test]
fn doubles_are_ordered_as_floats() {
    let values = [
        f64::NEG_INFINITY, -2.5, -1.0, -0.0, 0.0, 1e-300, 0.25, 1.0, 4.0, f64::INFINITY, f64::NAN,
    ];
    for a in values {
        for b in values {
            assert_eq!(d(a).before(d(b)), a < b);
            assert_eq!(d(a).at_most(d(b)), a <= b);
            assert_eq!(d(a).equals(d(b)), a == b);
        }
    }
}

#[test]
fn matches_and_messages_are_equal_as_numbers() {
    let at = |x: f64| MatchRect { x: d(x), ..rect(1.0) };
    assert_eq!(d(0.0), d(-0.0));
    assert_ne!(d(f64::NAN), d(f64::NAN));
    assert_eq!(at(0.0), at(-0.0));
    assert_ne!(at(f64::NAN), at(f64::NAN));
    assert_ne!(at(1.0), at(2.0));
    let page = |zoom: f64| AppMsg::PageRendered {
        generation: 1,
        zoom: d(zoom),
        index: 2,
        result: Ok((1, 1, vec![7])),
    };
    assert_eq!(page(0.0), page(-0.0));
    assert_ne!(page(f64::NAN), page(f64::NAN));
    let found = |hits: Vec<Vec<MatchRect>>| AppMsg::SearchResults { generation: 3, hits };
    assert_eq!(found(vec![vec![], vec![at(0.0)]]), found(vec![vec![], vec![at(-0.0)], vec![]]));
    assert_ne!(found(vec![vec![at(1.0)]]), found(vec![vec![], vec![at(1.0)]]));
    assert_ne!(found(vec![vec![at(f64::NAN)]]), found(vec![vec![at(f64::NAN)]]));
    assert_eq!(found(vec![]), found(vec![vec![], vec![]]));
    let picked = |p: &str| AppMsg::PickerResult(Some(FilePath::new(p)));
    assert_eq!(picked("/a//b"), picked("/a/b"));
    assert_ne!(picked("/a/b"), AppMsg::PickerResult(None));
    assert_eq!(AppMsg::OpenFile("x".to_string()), AppMsg::OpenFile("x".to_string()).clone());
    assert_ne!(AppMsg::SearchRun("x".to_string()), AppMsg::SearchQuery("x".to_string()));
    assert_ne!(AppMsg::GoToPage(1), AppMsg::GoToPage(2));
    assert_ne!(AppMsg::ZoomIn, AppMsg::ZoomOut);
}

#[test]
fn scroll_positions_are_held() {
    assert_eq!(f(scroll_target(d(50.0), d(0.0), d(100.0))), 50.0);
    assert_eq!(f(scroll_target(d(-5.0), d(0.0), d(100.0))), 0.0);
    assert_eq!(f(scroll_target(d(500.0), d(0.0), d(100.0))), 100.0);
    // A document shorter than the view stays where it is.
    assert_eq!(f(scroll_target(d(500.0), d(0.0), d(-20.0))), 0.0);
    let reveal = |top: f64, bottom: f64| {
        f(reveal_target(d(top), d(bottom), d(100.0), d(200.0), d(bottom - 100.0), d(0.0), d(400.0)))
    };
    assert_eq!(reveal(40.0, 60.0), 40.0);
    assert_eq!(reveal(120.0, 140.0), 100.0);
    assert_eq!(reveal(230.0, 250.0), 150.0);
    assert_eq!(f(widest_page(&[d(300.0), d(f64::NAN), d(595.0)])), 595.0);
    assert_eq!(f(widest_page(&[d(0.5)])), 1.0);
}

#[test]
fn current_page_lies_under_the_middle() {
    let model = opened(9);
    assert_eq!(model.current_page(&layout(9, 0.0)), Some(0));
    assert_eq!(model.current_page(&layout(9, 25.0)), Some(1));
    assert_eq!(model.current_page(&layout(9, 5000.0)), Some(8));
    assert_eq!(model.current_page(&layout(9, -5000.0)), Some(0));
    assert_eq!(reader().current_page(&layout(9, 0.0)), None);
}
