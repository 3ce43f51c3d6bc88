//! The reader as a state machine: messages in, effects out.
use vstd::prelude::*;
use vstd::slice::slice_to_vec;
use vstd::utf8::{decode_utf8, encode_utf8, valid_utf8};

use crate::config::{Config, ConfigView, SidebarConfig, WindowConfig};
use crate::double::{
    count_before, greater, greatest, held, lead, least, lesser, scroll_target, Double,
    ONE,
};
use crate::effect::{effect_views, emit, emit_all, nothing, Effect, EffectView, ScrollStep};
use crate::history::{page_of, same_path, visited, History};
use crate::paths::{file_name, same_bytes, shown, FilePath, DOT, SLASH};
use crate::pdf::{
    entry_views, kept_entries, levels, outline_entries, EntryView, MatchRect, PdfDoc, TocEntry,
};
use crate::picker::{expand_root, expanded, home_text};
use crate::render::{
    has_page, is_render_order, kept_pages, render_order, retain_pages, visible_window, window,
    RenderJob,
};
use crate::search::{
    found_effects, hit_count, queried_effects, reset_effects, run_effects, search_found,
    search_queried, search_reset, search_run, search_stepped, stepped_effects, Search, SearchView,
};
use crate::text::same_text;

verus! {

/// What the window, the worker threads and the dialogs tell the reader.
#[derive(Debug)]
pub enum AppMsg {
    OpenFile(String),
    ZoomIn,
    ZoomOut,
    GoToEntry(usize),
    ViewportChanged,
    ScrollDown,
    ScrollUp,
    ScrollLeft,
    ScrollRight,
    /// Jump to the start of the document (`g g`).
    ScrollTop,
    /// Jump to the end of the document (`G`).
    ScrollBottom,
    /// Jump to a page number, counted from 1, typed after the `g` leader
    /// (`g 4 2 <Enter>`). Clamped to the document's page count.
    GoToPage(u32),
    ToggleSidebar,
    /// A page was rendered. `generation` and `zoom` tell the batch, so that
    /// results for an older state of the document are dropped on arrival.
    PageRendered {
        generation: u64,
        zoom: Double,
        index: usize,
        result: Result<(i32, i32, Vec<u8>), String>,
    },
    /// Move keyboard focus to the sidebar. Never scrolls the document.
    FocusSidebar,
    /// Move keyboard focus to the document.
    FocusPdf,
    /// Open the file picker.
    PickFile,
    /// Show the search bar.
    OpenSearch,
    /// Hide the search bar. The matches are kept, so that the next and the
    /// previous one can still be visited.
    CloseSearch,
    /// The query changed.
    SearchQuery(String),
    /// The query has settled: scan the whole document for it.
    SearchRun(String),
    /// The hits of a finished scan by page, with the generation of the scan.
    SearchResults { generation: u64, hits: Vec<Vec<MatchRect>> },
    SearchNext,
    SearchPrev,
    /// The picker is done: a path to open, or none if it was cancelled.
    PickerResult(Option<FilePath>),
}

/// The matches of each page.
pub open spec fn hit_lists(hits: Seq<Vec<MatchRect>>) -> Seq<Seq<MatchRect>> {
    hits.map_values(|page: Vec<MatchRect>| page@)
}

/// Whether two render results are the same image or the same error.
pub open spec fn same_result(
    a: Result<(i32, i32, Vec<u8>), String>,
    b: Result<(i32, i32, Vec<u8>), String>,
) -> bool {
    match (a, b) {
        (Ok(x), Ok(y)) => x.0 == y.0 && x.1 == y.1 && x.2@ == y.2@,
        (Err(x), Err(y)) => x@ == y@,
        _ => false,
    }
}

impl AppMsg {
    /// Whether two messages say the same.
    pub open spec fn same_as(self, other: AppMsg) -> bool {
        match self {
            AppMsg::PageRendered { generation, zoom, index, result } => match other {
                AppMsg::PageRendered { generation: g, zoom: z, index: i, result: r } => generation
                    == g && zoom == z && index == i && same_result(result, r),
                _ => false,
            },
            AppMsg::SearchResults { generation, hits } => match other {
                AppMsg::SearchResults { generation: g, hits: h } => generation == g && hit_lists(
                    hits@,
                ) == hit_lists(h@),
                _ => false,
            },
            AppMsg::PickerResult(path) => match other {
                AppMsg::PickerResult(p) => match (path, p) {
                    (Some(a), Some(b)) => a@ == b@,
                    (None, None) => true,
                    _ => false,
                },
                _ => false,
            },
            _ => self == other,
        }
    }
}

/// The matches of a page; a page that is not listed has none.
pub open spec fn hits_on(hits: Seq<Seq<MatchRect>>, page: int) -> Seq<MatchRect> {
    if 0 <= page < hits.len() {
        hits[page]
    } else {
        Seq::empty()
    }
}

/// Whether two lists hold equal matches in the same order.
pub open spec fn equal_rects(a: Seq<MatchRect>, b: Seq<MatchRect>) -> bool {
    a.len() == b.len() && forall|i: int| 0 <= i < a.len() ==> (#[trigger] a[i]).same(b[i])
}

/// Whether every page has equal matches.
pub open spec fn equal_hits(a: Seq<Seq<MatchRect>>, b: Seq<Seq<MatchRect>>) -> bool {
    forall|page: int| equal_rects(#[trigger] hits_on(a, page), hits_on(b, page))
}

fn rects_equal(a: &[MatchRect], b: &[MatchRect]) -> (r: bool)
    ensures
        r == equal_rects(a@, b@),
{
    if a.len() != b.len() {
        return false;
    }
    let mut i: usize = 0;
    while i < a.len()
        invariant
            i <= a@.len() == b@.len(),
            forall|j: int| 0 <= j < i ==> (#[trigger] a@[j]).same(b@[j]),
        decreases a@.len() - i,
    {
        if a[i] != b[i] {
            return false;
        }
        i += 1;
    }
    true
}

/// The matches of a page.
fn rects_on(hits: &Vec<Vec<MatchRect>>, page: usize) -> (r: &[MatchRect])
    ensures
        r@ == hits_on(hit_lists(hits@), page as int),
{
    if page < hits.len() {
        hits[page].as_slice()
    } else {
        &[]
    }
}

fn hits_equal(a: &Vec<Vec<MatchRect>>, b: &Vec<Vec<MatchRect>>) -> (r: bool)
    ensures
        r == equal_hits(hit_lists(a@), hit_lists(b@)),
{
    let ghost x = hit_lists(a@);
    let ghost y = hit_lists(b@);
    let pages: usize = if a.len() < b.len() {
        b.len()
    } else {
        a.len()
    };
    let mut i: usize = 0;
    while i < pages
        invariant
            i <= pages,
            x == hit_lists(a@),
            y == hit_lists(b@),
            forall|page: int|
                0 <= page < i ==> equal_rects(#[trigger] hits_on(x, page), hits_on(y, page)),
        decreases pages - i,
    {
        if !rects_equal(rects_on(a, i), rects_on(b, i)) {
            assert(!equal_rects(hits_on(x, i as int), hits_on(y, i as int)));
            return false;
        }
        i += 1;
    }
    assert forall|page: int| equal_rects(#[trigger] hits_on(x, page), hits_on(y, page)) by {
        if page < 0 || page >= pages {
            assert(hits_on(x, page) == Seq::<MatchRect>::empty());
            assert(hits_on(y, page) == Seq::<MatchRect>::empty());
        }
    }
    true
}

fn results_equal(
    a: &Result<(i32, i32, Vec<u8>), String>,
    b: &Result<(i32, i32, Vec<u8>), String>,
) -> (r: bool)
    ensures
        r == same_result(*a, *b),
{
    match (a, b) {
        (Ok(x), Ok(y)) => x.0 == y.0 && x.1 == y.1 && same_bytes(x.2.as_slice(), y.2.as_slice()),
        (Err(x), Err(y)) => same_text(x.as_str(), y.as_str()),
        _ => false,
    }
}

/// Messages are equal where what they carry is: numbers as numbers, paths
/// component by component.
impl PartialEq for AppMsg {
    fn eq(&self, other: &AppMsg) -> (r: bool) {
        match (self, other) {
            (AppMsg::OpenFile(a), AppMsg::OpenFile(b)) => same_text(a.as_str(), b.as_str()),
            (AppMsg::ZoomIn, AppMsg::ZoomIn) => true,
            (AppMsg::ZoomOut, AppMsg::ZoomOut) => true,
            (AppMsg::GoToEntry(a), AppMsg::GoToEntry(b)) => *a == *b,
            (AppMsg::ViewportChanged, AppMsg::ViewportChanged) => true,
            (AppMsg::ScrollDown, AppMsg::ScrollDown) => true,
            (AppMsg::ScrollUp, AppMsg::ScrollUp) => true,
            (AppMsg::ScrollLeft, AppMsg::ScrollLeft) => true,
            (AppMsg::ScrollRight, AppMsg::ScrollRight) => true,
            (AppMsg::ScrollTop, AppMsg::ScrollTop) => true,
            (AppMsg::ScrollBottom, AppMsg::ScrollBottom) => true,
            (AppMsg::GoToPage(a), AppMsg::GoToPage(b)) => *a == *b,
            (AppMsg::ToggleSidebar, AppMsg::ToggleSidebar) => true,
            (
                AppMsg::PageRendered { generation, zoom, index, result },
                AppMsg::PageRendered { generation: g, zoom: z, index: i, result: r },
            ) => *generation == *g && zoom.equals(*z) && *index == *i && results_equal(result, r),
            (AppMsg::FocusSidebar, AppMsg::FocusSidebar) => true,
            (AppMsg::FocusPdf, AppMsg::FocusPdf) => true,
            (AppMsg::PickFile, AppMsg::PickFile) => true,
            (AppMsg::OpenSearch, AppMsg::OpenSearch) => true,
            (AppMsg::CloseSearch, AppMsg::CloseSearch) => true,
            (AppMsg::SearchQuery(a), AppMsg::SearchQuery(b)) => same_text(a.as_str(), b.as_str()),
            (AppMsg::SearchRun(a), AppMsg::SearchRun(b)) => same_text(a.as_str(), b.as_str()),
            (
                AppMsg::SearchResults { generation, hits },
                AppMsg::SearchResults { generation: g, hits: h },
            ) => *generation == *g && hits_equal(hits, h),
            (AppMsg::SearchNext, AppMsg::SearchNext) => true,
            (AppMsg::SearchPrev, AppMsg::SearchPrev) => true,
            (AppMsg::PickerResult(a), AppMsg::PickerResult(b)) => match (a, b) {
                (Some(p), Some(q)) => p.same(q),
                (None, None) => true,
                _ => false,
            },
            _ => false,
        }
    }
}

impl vstd::std_specs::cmp::PartialEqSpecImpl for AppMsg {
    open spec fn obeys_eq_spec() -> bool {
        true
    }

    open spec fn eq_spec(&self, other: &AppMsg) -> bool {
        match (*self, *other) {
            (AppMsg::OpenFile(a), AppMsg::OpenFile(b)) => a@ == b@,
            (AppMsg::SearchQuery(a), AppMsg::SearchQuery(b)) => a@ == b@,
            (AppMsg::SearchRun(a), AppMsg::SearchRun(b)) => a@ == b@,
            (
                AppMsg::PageRendered { generation, zoom, index, result },
                AppMsg::PageRendered { generation: g, zoom: z, index: i, result: r },
            ) => generation == g && zoom.same(z) && index == i && same_result(result, r),
            (
                AppMsg::SearchResults { generation, hits },
                AppMsg::SearchResults { generation: g, hits: h },
            ) => generation == g && equal_hits(hit_lists(hits@), hit_lists(h@)),
            (AppMsg::PickerResult(a), AppMsg::PickerResult(b)) => match (a, b) {
                (Some(p), Some(q)) => same_path(p@, q@),
                (None, None) => true,
                _ => false,
            },
            (a, b) => a == b,
        }
    }
}

/// The same matches, page by page.
pub fn copy_hits(hits: &Vec<Vec<MatchRect>>) -> (r: Vec<Vec<MatchRect>>)
    ensures
        hit_lists(r@) == hit_lists(hits@),
{
    let mut out: Vec<Vec<MatchRect>> = Vec::new();
    let mut i: usize = 0;
    while i < hits.len()
        invariant
            i <= hits@.len(),
            out@.len() == i,
            forall|j: int| 0 <= j < i ==> out@[j]@ == hits@[j]@,
        decreases hits@.len() - i,
    {
        out.push(slice_to_vec(hits[i].as_slice()));
        i += 1;
    }
    assert(hit_lists(out@) =~= hit_lists(hits@));
    out
}

impl Clone for AppMsg {
    fn clone(&self) -> (r: AppMsg)
        ensures
            self.same_as(r),
    {
        match self {
            AppMsg::OpenFile(uri) => AppMsg::OpenFile(uri.clone()),
            AppMsg::ZoomIn => AppMsg::ZoomIn,
            AppMsg::ZoomOut => AppMsg::ZoomOut,
            AppMsg::GoToEntry(index) => AppMsg::GoToEntry(*index),
            AppMsg::ViewportChanged => AppMsg::ViewportChanged,
            AppMsg::ScrollDown => AppMsg::ScrollDown,
            AppMsg::ScrollUp => AppMsg::ScrollUp,
            AppMsg::ScrollLeft => AppMsg::ScrollLeft,
            AppMsg::ScrollRight => AppMsg::ScrollRight,
            AppMsg::ScrollTop => AppMsg::ScrollTop,
            AppMsg::ScrollBottom => AppMsg::ScrollBottom,
            AppMsg::GoToPage(page) => AppMsg::GoToPage(*page),
            AppMsg::ToggleSidebar => AppMsg::ToggleSidebar,
            AppMsg::PageRendered { generation, zoom, index, result } => AppMsg::PageRendered {
                generation: *generation,
                zoom: *zoom,
                index: *index,
                result: match result {
                    Ok(image) => Ok((image.0, image.1, slice_to_vec(image.2.as_slice()))),
                    Err(error) => Err(error.clone()),
                },
            },
            AppMsg::FocusSidebar => AppMsg::FocusSidebar,
            AppMsg::FocusPdf => AppMsg::FocusPdf,
            AppMsg::PickFile => AppMsg::PickFile,
            AppMsg::OpenSearch => AppMsg::OpenSearch,
            AppMsg::CloseSearch => AppMsg::CloseSearch,
            AppMsg::SearchQuery(text) => AppMsg::SearchQuery(text.clone()),
            AppMsg::SearchRun(query) => AppMsg::SearchRun(query.clone()),
            AppMsg::SearchResults { generation, hits } => AppMsg::SearchResults {
                generation: *generation,
                hits: copy_hits(hits),
            },
            AppMsg::SearchNext => AppMsg::SearchNext,
            AppMsg::SearchPrev => AppMsg::SearchPrev,
            AppMsg::PickerResult(path) => AppMsg::PickerResult(
                match path {
                    Some(path) => Some(path.clone()),
                    None => None,
                },
            ),
        }
    }
}

/// The pattern of 4.0, the largest zoom.
pub const ZOOM_MOST: u64 = 0x4010_0000_0000_0000;

/// The pattern of 0.25, the smallest zoom.
pub const ZOOM_LEAST: u64 = 0x3fd0_0000_0000_0000;

/// The reader: what is open, how it is shown and what is remembered of it.
#[derive(Debug)]
pub struct AppModel {
    /// Whether a document is open and rendered by workers.
    pub document_open: bool,
    /// Counts the states of the document that its page images were made for,
    /// so that a late image is recognised.
    pub render_gen: u64,
    pub path: Option<FilePath>,
    pub zoom: Double,
    /// Whether the document is fitted to the width of the view.
    pub fit_mode: bool,
    /// The width that the document was last fitted to; 0 if it was not.
    pub last_viewport_width: i32,
    pub n_pages: usize,
    /// The pages that have an image.
    pub painted: Vec<usize>,
    pub search: Search,
    pub toc_entries: Vec<TocEntry>,
    pub highlighted_toc: Option<usize>,
    /// The entry that was chosen in the sidebar, kept while the view stays on
    /// its page.
    pub pinned_toc: Option<usize>,
    pub config: Config,
    pub history: History,
    /// The page to scroll to once the zoom has settled.
    pub pending_restore: Option<usize>,
    /// Whether writing the history is scheduled.
    pub history_save_pending: bool,
    pub picker_open: bool,
}

/// The reader, with its texts, paths and lists as sequences.
pub struct ModelView {
    pub document_open: bool,
    pub render_gen: u64,
    pub path: Option<Seq<u8>>,
    pub zoom: Double,
    pub fit_mode: bool,
    pub last_viewport_width: i32,
    pub n_pages: usize,
    pub painted: Seq<usize>,
    pub search: SearchView,
    pub entries: Seq<EntryView>,
    pub highlighted: Option<usize>,
    pub pinned: Option<usize>,
    pub config: ConfigView,
    pub history: Seq<(Seq<u8>, usize)>,
    pub pending_restore: Option<usize>,
    pub history_save_pending: bool,
    pub picker_open: bool,
}

/// A path, if there is one.
pub open spec fn path_view(path: Option<FilePath>) -> Option<Seq<u8>> {
    match path {
        Some(path) => Some(path@),
        None => None,
    }
}

impl View for AppModel {
    type V = ModelView;

    open spec fn view(&self) -> ModelView {
        ModelView {
            document_open: self.document_open,
            render_gen: self.render_gen,
            path: path_view(self.path),
            zoom: self.zoom,
            fit_mode: self.fit_mode,
            last_viewport_width: self.last_viewport_width,
            n_pages: self.n_pages,
            painted: self.painted@,
            search: self.search@,
            entries: entry_views(self.toc_entries@),
            highlighted: self.highlighted_toc,
            pinned: self.pinned_toc,
            config: self.config@,
            history: self.history@,
            pending_restore: self.pending_restore,
            history_save_pending: self.history_save_pending,
            picker_open: self.picker_open,
        }
    }
}

/// Where the pages and the edges of the view are, in pixels.
#[derive(Debug)]
pub struct Layout {
    /// The upper edge of each page.
    pub starts: Vec<Double>,
    /// The spacing above the upper edge of the view.
    pub top_edge: Double,
    /// The lower edge of the view.
    pub bottom: Double,
    /// The middle of the view.
    pub centre: Double,
}

/// What a message is taken in with.
#[derive(Debug)]
pub struct Around {
    /// The path that the URI of a file to open stands for, if it is one.
    pub converted: Option<FilePath>,
    /// The home directory.
    pub home: Option<FilePath>,
    /// The zoom, one step in or out.
    pub zoomed: Double,
    /// The width of the view.
    pub width: i32,
    /// The zoom at which the widest page fills the view.
    pub fit_zoom: Double,
    /// Whether the sidebar is hidden.
    pub sidebar_collapsed: bool,
}

/// The page under the middle of the view.
pub open spec fn page_at(n_pages: int, starts: Seq<Double>, centre: Double) -> Option<usize> {
    if n_pages <= 0 {
        None
    } else {
        let above = lead(starts, centre, true);
        let page = if above < 1 {
            0
        } else {
            above - 1
        };
        Some(
            (if page < n_pages {
                page
            } else {
                n_pages - 1
            }) as usize,
        )
    }
}

/// The entry that covers `page`: the one with the greatest page that is not
/// past it, the last of several.
pub open spec fn active_entry(entries: Seq<EntryView>, page: usize) -> Option<usize>
    decreases entries.len(),
{
    if entries.len() == 0 {
        None
    } else {
        let front = active_entry(entries.drop_last(), page);
        let last = entries.last();
        if last.page <= page && (front is None || entries[front->0 as int].page <= last.page) {
            Some((entries.len() - 1) as usize)
        } else {
            front
        }
    }
}

/// The title of the window for a document: the name of its file.
pub open spec fn title_of(path: Seq<u8>) -> Seq<char> {
    match file_name(path, SLASH, DOT) {
        Some(name) => shown(name),
        None => "Document"@,
    }
}

/// What is done at the start: the last file is opened again.
pub open spec fn start_effects(m: ModelView) -> Seq<EffectView> {
    match m.config.last_file {
        Some(uri) => seq![EffectView::SendOpen(uri)],
        None => Seq::empty(),
    }
}

/// The reader without page images.
pub open spec fn invalidated(m: ModelView) -> ModelView {
    ModelView { render_gen: (m.render_gen + 1) as u64, painted: Seq::empty(), ..m }
}

/// The history after the document that is left was at `page`.
pub open spec fn left_at(m: ModelView, page: Option<usize>) -> Seq<(Seq<u8>, usize)> {
    match (m.path, page) {
        (Some(path), Some(page)) => visited(m.history, path, page),
        _ => m.history,
    }
}

/// The reader once the document at `path` was opened, when the one that is
/// left was at `page`.
pub open spec fn model_loaded(
    m: ModelView,
    path: Seq<u8>,
    pages: usize,
    entries: Seq<EntryView>,
    page: Option<usize>,
) -> ModelView {
    let history = left_at(m, page);
    ModelView {
        document_open: true,
        render_gen: (m.render_gen + 2) as u64,
        path: Some(path),
        zoom: Double { bits: ONE },
        fit_mode: m.fit_mode,
        last_viewport_width: 0,
        n_pages: pages,
        painted: Seq::empty(),
        search: search_reset(m.search),
        entries,
        highlighted: None,
        pinned: None,
        config: if valid_utf8(path) {
            ConfigView { last_file: Some(decode_utf8(path)), ..m.config }
        } else {
            m.config
        },
        history,
        pending_restore: page_of(history, path),
        history_save_pending: m.history_save_pending,
        picker_open: m.picker_open,
    }
}

/// What is done when the document at `path` was opened. It becomes the last
/// file, if its path is text.
pub open spec fn loaded_effects(m: ModelView, path: Seq<u8>) -> Seq<EffectView> {
    seq![EffectView::SaveHistory, EffectView::StartRenderer] + reset_effects(m.search) + seq![
        EffectView::BuildPages,
        EffectView::ClearImages,
        EffectView::ScrollToTop,
    ] + (if valid_utf8(path) {
        seq![EffectView::SaveConfig]
    } else {
        Seq::empty()
    }) + seq![
        EffectView::SetTitle(title_of(path)),
        EffectView::SetContents,
        EffectView::ShowDocument,
        EffectView::SendViewportChanged,
    ]
}

/// Whether the document is fitted to a view of this width: it changed by more
/// than a few pixels, and the view has been given room.
pub open spec fn refits(m: ModelView, width: int) -> bool {
    let change = if width < m.last_viewport_width {
        m.last_viewport_width - width
    } else {
        width - m.last_viewport_width
    };
    m.fit_mode && m.document_open && width >= 50 && change >= 8
}

/// What scrolls to `page`, if the document has it.
pub open spec fn scrolls_to(m: ModelView, page: int) -> Seq<EffectView> {
    if 0 <= page < m.n_pages {
        seq![EffectView::ScrollToPage(page as usize)]
    } else {
        Seq::empty()
    }
}

/// The page that a typed number stands for, counted from 0: the nearest that
/// the document has.
pub open spec fn typed_page(m: ModelView, number: u32) -> int {
    if number == 0 {
        0
    } else if number <= m.n_pages {
        number - 1
    } else {
        m.n_pages - 1
    }
}

/// Whether a page image is for the document as it is now, and new.
pub open spec fn is_wanted(m: ModelView, generation: u64, zoom: Double, index: usize) -> bool {
    generation == m.render_gen && zoom.same(m.zoom) && index < m.n_pages && !m.painted.contains(
        index,
    )
}

/// The path that a URI or a plain path stands for.
pub open spec fn named_path(uri: Seq<char>, converted: Option<FilePath>) -> Seq<u8> {
    match converted {
        Some(path) => path@,
        None => encode_utf8(uri),
    }
}

/// Whether the document at `path` is open already.
pub open spec fn is_open(m: ModelView, path: Seq<u8>) -> bool {
    m.document_open && m.path is Some && same_path(m.path->0, path)
}

/// The reader after `msg`.
pub open spec fn model_after(m: ModelView, msg: AppMsg, around: Around) -> ModelView {
    match msg {
        AppMsg::ZoomIn => if m.document_open {
            ModelView {
                fit_mode: false,
                config: ConfigView { fit_width: false, ..m.config },
                zoom: least(around.zoomed, Double { bits: ZOOM_MOST }),
                ..invalidated(m)
            }
        } else {
            m
        },
        AppMsg::ZoomOut => if m.document_open {
            ModelView {
                fit_mode: false,
                config: ConfigView { fit_width: false, ..m.config },
                zoom: greatest(around.zoomed, Double { bits: ZOOM_LEAST }),
                ..invalidated(m)
            }
        } else {
            m
        },
        AppMsg::GoToEntry(index) => if index < m.entries.len() {
            ModelView { pinned: Some(index), highlighted: Some(index), ..m }
        } else {
            m
        },
        AppMsg::ViewportChanged => if refits(m, around.width as int) {
            ModelView {
                zoom: held(
                    around.fit_zoom,
                    Double { bits: ZOOM_LEAST },
                    Double { bits: ZOOM_MOST },
                ),
                last_viewport_width: around.width,
                ..invalidated(m)
            }
        } else {
            m
        },
        AppMsg::PageRendered { generation, zoom, index, result } => if result is Ok && is_wanted(
            m,
            generation,
            zoom,
            index,
        ) {
            ModelView { painted: m.painted.push(index), ..m }
        } else {
            m
        },
        AppMsg::ToggleSidebar => ModelView {
            config: ConfigView {
                sidebar: SidebarConfig {
                    collapsed: !around.sidebar_collapsed,
                    ..m.config.sidebar
                },
                ..m.config
            },
            ..m
        },
        AppMsg::PickFile => ModelView { picker_open: true, ..m },
        AppMsg::PickerResult(_) => ModelView { picker_open: false, ..m },
        AppMsg::OpenSearch => ModelView { search: SearchView { open: true, ..m.search }, ..m },
        AppMsg::CloseSearch => ModelView { search: SearchView { open: false, ..m.search }, ..m },
        AppMsg::SearchQuery(text) => ModelView { search: search_queried(m.search, text@), ..m },
        AppMsg::SearchRun(_) => ModelView {
            search: search_run(m.search, m.path, m.n_pages as int),
            ..m
        },
        AppMsg::SearchResults { generation, hits } => if generation == m.search.generation {
            ModelView {
                search: search_found(m.search, hit_lists(hits@), m.n_pages as int),
                ..m
            }
        } else {
            m
        },
        AppMsg::SearchNext => ModelView {
            search: search_stepped(m.search, 1, m.n_pages as int),
            ..m
        },
        AppMsg::SearchPrev => ModelView {
            search: search_stepped(m.search, -1, m.n_pages as int),
            ..m
        },
        _ => m,
    }
}

/// What is done for `msg`.
pub open spec fn model_effects(m: ModelView, msg: AppMsg, around: Around) -> Seq<EffectView> {
    match msg {
        AppMsg::OpenFile(uri) => {
            let path = named_path(uri@, around.converted);
            if is_open(m, path) {
                seq![EffectView::Present]
            } else {
                seq![EffectView::Present, EffectView::OpenDocument(path)]
            }
        },
        AppMsg::ZoomIn | AppMsg::ZoomOut => if m.document_open {
            seq![EffectView::SaveConfig, EffectView::ResizePages, EffectView::ClearImages]
        } else {
            Seq::empty()
        },
        AppMsg::GoToEntry(index) => if index < m.entries.len() {
            seq![EffectView::Highlight(Some(index))] + scrolls_to(
                m,
                m.entries[index as int].page as int,
            ) + seq![EffectView::FocusContent]
        } else {
            Seq::empty()
        },
        AppMsg::GoToPage(number) => scrolls_to(m, typed_page(m, number)),
        AppMsg::ViewportChanged => if refits(m, around.width as int) {
            seq![EffectView::ResizePages, EffectView::ClearImages, EffectView::Settle]
        } else {
            seq![EffectView::Settle]
        },
        AppMsg::ScrollDown => seq![EffectView::Scroll(ScrollStep::Down)],
        AppMsg::ScrollUp => seq![EffectView::Scroll(ScrollStep::Up)],
        AppMsg::ScrollLeft => seq![EffectView::Scroll(ScrollStep::Left)],
        AppMsg::ScrollRight => seq![EffectView::Scroll(ScrollStep::Right)],
        AppMsg::ScrollTop => seq![EffectView::Scroll(ScrollStep::Start)],
        AppMsg::ScrollBottom => seq![EffectView::Scroll(ScrollStep::End)],
        AppMsg::PageRendered { generation, zoom, index, result } => if is_wanted(
            m,
            generation,
            zoom,
            index,
        ) {
            match result {
                Ok((width, height, bytes)) => seq![
                    EffectView::StoreImage { index, width, height, bytes: bytes@ },
                ],
                Err(error) => seq![
                    EffectView::ReportPage { page: (index + 1) as usize, error: error@ },
                ],
            }
        } else {
            Seq::empty()
        },
        AppMsg::ToggleSidebar => seq![
            EffectView::CollapseSidebar(!around.sidebar_collapsed),
            EffectView::SaveConfig,
        ],
        AppMsg::FocusSidebar => seq![
            EffectView::FocusEntry(
                if m.highlighted is None && m.entries.len() > 0 {
                    Some(0)
                } else {
                    m.highlighted
                },
            ),
        ],
        AppMsg::FocusPdf => seq![EffectView::FocusContent],
        AppMsg::PickFile => if m.picker_open {
            Seq::empty()
        } else {
            seq![
                EffectView::OpenPicker {
                    root: expanded(m.config.picker.root@, home_text(around.home)),
                    width: m.config.picker.width,
                    height: m.config.picker.height,
                },
            ]
        },
        AppMsg::PickerResult(path) => match path {
            Some(path) => seq![EffectView::DropPicker, EffectView::SendOpen(shown(path@))],
            None => seq![EffectView::DropPicker],
        },
        AppMsg::OpenSearch => seq![EffectView::ShowSearchBar(true), EffectView::FocusSearch],
        AppMsg::CloseSearch => if m.search.open {
            seq![EffectView::ShowSearchBar(false), EffectView::FocusContent]
        } else {
            Seq::empty()
        },
        AppMsg::SearchQuery(text) => queried_effects(m.search, text@, m.n_pages as int),
        AppMsg::SearchRun(query) => run_effects(m.search, m.path, m.n_pages, query@),
        AppMsg::SearchResults { generation, hits } => if generation == m.search.generation {
            found_effects(m.search, hit_lists(hits@), m.n_pages as int)
        } else {
            Seq::empty()
        },
        AppMsg::SearchNext => stepped_effects(m.search, 1, m.n_pages as int),
        AppMsg::SearchPrev => stepped_effects(m.search, -1, m.n_pages as int),
    }
}

impl AppModel {
    /// The reader before anything is open.
    pub fn new(config: Config, history: History) -> (r: AppModel)
        ensures
            !r.document_open,
            r.render_gen == 0,
            r.path is None,
            r.zoom.bits == ONE,
            r.fit_mode == config.fit_width,
            r.last_viewport_width == 0,
            r.n_pages == 0,
            r.painted@.len() == 0,
            r.search@ == (SearchView {
                open: false,
                query: Seq::empty(),
                generation: 0,
                scheduled: false,
                total: 0,
                flat: 0,
                hits: Seq::empty(),
                current: None,
            }),
            r.toc_entries@.len() == 0,
            r.highlighted_toc is None,
            r.pinned_toc is None,
            r.config == config,
            r.history == history,
            r.pending_restore is None,
            !r.history_save_pending,
            !r.picker_open,
    {
        AppModel {
            document_open: false,
            render_gen: 0,
            path: None,
            zoom: Double { bits: ONE },
            fit_mode: config.fit_width,
            last_viewport_width: 0,
            n_pages: 0,
            painted: Vec::new(),
            search: Search::new(),
            toc_entries: Vec::new(),
            highlighted_toc: None,
            pinned_toc: None,
            config,
            history,
            pending_restore: None,
            history_save_pending: false,
            picker_open: false,
        }
    }

    /// What is done at the start: the document of the last session is opened
    /// again.
    pub fn start(&self) -> (r: Vec<Effect>)
        ensures
            effect_views(r@) == start_effects(self@),
    {
        let mut effects = nothing();
        match &self.config.last_file {
            Some(uri) => {
                emit(&mut effects, Effect::SendOpen(uri.clone()));
                assert(effect_views(effects@) =~= start_effects(self@));
            },
            None => {},
        }
        effects
    }

    /// The page under the middle of the view.
    pub fn current_page(&self, layout: &Layout) -> (r: Option<usize>)
        ensures
            r == page_at(self.n_pages as int, layout.starts@, layout.centre),
            r is Some ==> r->0 < self.n_pages,
    {
        if self.n_pages == 0 {
            return None;
        }
        let above: usize = count_before(layout.starts.as_slice(), layout.centre, true);
        let page: usize = if above < 1 {
            0
        } else {
            above - 1
        };
        if page < self.n_pages {
            Some(page)
        } else {
            Some(self.n_pages - 1)
        }
    }

    /// The entry that covers `page`. Entries need not be in the order of their
    /// pages.
    pub fn active_toc_entry(&self, page: usize) -> (r: Option<usize>)
        ensures
            r == active_entry(self@.entries, page),
    {
        let mut best: Option<usize> = None;
        let mut i: usize = 0;
        let ghost all = self@.entries;
        assert(all.take(0) =~= Seq::empty());
        while i < self.toc_entries.len()
            invariant
                i <= self.toc_entries@.len(),
                all == entry_views(self.toc_entries@),
                best == active_entry(all.take(i as int), page),
                best is Some ==> best->0 < i,
            decreases self.toc_entries@.len() - i,
        {
            let own: usize = self.toc_entries[i].page;
            assert(all.take(i + 1).drop_last() =~= all.take(i as int));
            assert(all.take(i + 1).last() == self.toc_entries@[i as int]@);
            if own <= page {
                match best {
                    Some(b) => {
                        assert(all.take(i + 1)[b as int] == self.toc_entries@[b as int]@);
                        if self.toc_entries[b].page <= own {
                            best = Some(i);
                        }
                    },
                    None => {
                        best = Some(i);
                    },
                }
            }
            i += 1;
        }
        assert(all.take(i as int) =~= all);
        best
    }

    /// Forget all page images; those still being made are for an older state.
    fn invalidate_textures(&mut self)
        requires
            old(self).render_gen < u64::MAX,
        ensures
            final(self)@ == invalidated(old(self)@),
    {
        self.render_gen = self.render_gen + 1;
        self.painted = Vec::new();
        assert(self.painted@ =~= Seq::empty());
    }

    fn push_scroll(&self, effects: &mut Vec<Effect>, page: usize)
        ensures
            effect_views(final(effects)@) == effect_views(old(effects)@) + scrolls_to(
                self@,
                page as int,
            ),
    {
        if page < self.n_pages {
            emit(effects, Effect::ScrollToPage(page));
        }
        assert(effect_views(effects@) =~= effect_views(old(effects)@) + scrolls_to(
            self@,
            page as int,
        ));
    }

    /// Take in the document that was opened. `layout` is that of the document
    /// that is left.
    pub fn load_document(&mut self, path: FilePath, doc: &PdfDoc, layout: &Layout) -> (r: Vec<Effect>)
        requires
            old(self).render_gen + 2 <= u64::MAX,
            old(self).search.generation < u64::MAX,
            levels(doc.outline@) <= usize::MAX,
        ensures
            final(self)@ == model_loaded(
                old(self)@,
                path@,
                doc.pages(),
                kept_entries(outline_entries(doc.outline@, 0), doc.last_page()),
                page_at(old(self).n_pages as int, layout.starts@, layout.centre),
            ),
            effect_views(r@) == loaded_effects(old(self)@, path@),
    {
        let page = self.current_page(layout);
        if let Some(page) = page {
            if let Some(prev) = &self.path {
                self.history.set(prev, page);
            }
        }
        let mut effects = nothing();
        emit(&mut effects, Effect::SaveHistory);
        emit(&mut effects, Effect::StartRenderer);
        assert(effect_views(effects@) =~= seq![EffectView::SaveHistory, EffectView::StartRenderer]);
        self.toc_entries = doc.toc();
        self.n_pages = doc.n_pages();
        self.document_open = true;
        self.zoom = Double { bits: ONE };
        self.last_viewport_width = 0;
        let more = self.search.reset_search();
        emit_all(&mut effects, more);
        self.highlighted_toc = None;
        self.pinned_toc = None;
        self.pending_restore = self.history.page_for(&path);
        self.render_gen = self.render_gen + 1;
        self.invalidate_textures();
        let title = match path.file_name() {
            Some(name) => name,
            None => "Document".to_owned(),
        };
        let ghost bytes = path@;
        let mut rest = nothing();
        emit(&mut rest, Effect::BuildPages);
        emit(&mut rest, Effect::ClearImages);
        emit(&mut rest, Effect::ScrollToTop);
        match path.utf8_text() {
            Some(text) => {
                self.config.last_file = Some(text);
                emit(&mut rest, Effect::SaveConfig);
            },
            None => {},
        }
        self.path = Some(path);
        emit(&mut rest, Effect::SetTitle(title));
        emit(&mut rest, Effect::SetContents);
        emit(&mut rest, Effect::ShowDocument);
        emit(&mut rest, Effect::SendViewportChanged);
        assert(effect_views(rest@) =~= seq![
            EffectView::BuildPages,
            EffectView::ClearImages,
            EffectView::ScrollToTop,
        ] + (if valid_utf8(bytes) {
            seq![EffectView::SaveConfig]
        } else {
            Seq::empty()
        }) + seq![
            EffectView::SetTitle(title_of(bytes)),
            EffectView::SetContents,
            EffectView::ShowDocument,
            EffectView::SendViewportChanged,
        ]);
        emit_all(&mut effects, rest);
        assert(effect_views(effects@) =~= loaded_effects(old(self)@, bytes));
        effects
    }

    /// What is done when a document could not be opened.
    pub fn show_error(&self, error: String) -> (r: Vec<Effect>)
        ensures
            effect_views(r@) == seq![
                EffectView::ShowStatus {
                    title: "Could not open document"@,
                    description: error@,
                },
                EffectView::SetTitle("Error"@),
            ],
    {
        let ghost wanted = error@;
        let mut effects = nothing();
        emit(
            &mut effects,
            Effect::ShowStatus {
                title: "Could not open document".to_owned(),
                description: error,
            },
        );
        emit(&mut effects, Effect::SetTitle("Error".to_owned()));
        assert(effect_views(effects@) =~= seq![
            EffectView::ShowStatus { title: "Could not open document"@, description: wanted },
            EffectView::SetTitle("Error"@),
        ]);
        effects
    }
}

/// The pinned entry, as long as the view is on its page.
pub open spec fn still_pinned(m: ModelView, page: Option<usize>) -> Option<usize> {
    match m.pinned {
        Some(entry) => {
            let own = if entry < m.entries.len() {
                Some(m.entries[entry as int].page)
            } else {
                None
            };
            if page == own {
                m.pinned
            } else {
                None
            }
        },
        None => None,
    }
}

/// The entry to highlight when `page` is under the middle of the view: the
/// pinned one, or else the one that covers the page.
pub open spec fn entry_on_screen(m: ModelView, page: Option<usize>) -> Option<usize> {
    if still_pinned(m, page) is Some {
        still_pinned(m, page)
    } else {
        match page {
            Some(page) => active_entry(m.entries, page),
            None => None,
        }
    }
}

/// Whether the page that the document was left at can be scrolled to: the zoom
/// has settled.
pub open spec fn restores(m: ModelView) -> bool {
    m.pending_restore is Some && !(m.fit_mode && m.last_viewport_width == 0)
}

/// The reader once the view has settled.
pub open spec fn model_settled(m: ModelView, layout: Layout) -> ModelView {
    let (first, last) = window(layout.starts@, layout.top_edge, layout.bottom);
    let page = page_at(m.n_pages as int, layout.starts@, layout.centre);
    ModelView {
        painted: kept_pages(m.painted, first, last),
        pinned: still_pinned(m, page),
        highlighted: entry_on_screen(m, page),
        pending_restore: if restores(m) {
            None
        } else {
            m.pending_restore
        },
        history: if restores(m) && m.path is Some {
            visited(m.history, m.path->0, m.pending_restore->0)
        } else {
            m.history
        },
        ..m
    }
}

/// What is done once the view has settled. `order` lists the pages to render.
pub open spec fn settled_effects(m: ModelView, layout: Layout, order: Seq<usize>) -> Seq<
    EffectView,
> {
    let (first, last) = window(layout.starts@, layout.top_edge, layout.bottom);
    let page = page_at(m.n_pages as int, layout.starts@, layout.centre);
    (if order.len() > 0 && m.document_open {
        seq![EffectView::Render { generation: m.render_gen, zoom: m.zoom, order }]
    } else {
        Seq::empty()
    }) + seq![EffectView::KeepImages(kept_pages(m.painted, first, last))] + (if entry_on_screen(
        m,
        page,
    ) != m.highlighted {
        seq![EffectView::Highlight(entry_on_screen(m, page))]
    } else {
        Seq::empty()
    }) + (if restores(m) {
        scrolls_to(m, m.pending_restore->0 as int)
    } else {
        Seq::empty()
    }) + seq![EffectView::RecordPosition]
}

/// The reader once its position was recorded; not while one is to be restored.
pub open spec fn model_recorded(m: ModelView, page: Option<usize>) -> ModelView {
    if m.pending_restore is Some {
        m
    } else {
        ModelView { history: left_at(m, page), history_save_pending: true, ..m }
    }
}

/// What is done when the position is recorded: it is written in a while.
pub open spec fn recorded_effects(m: ModelView) -> Seq<EffectView> {
    if m.pending_restore is Some || m.history_save_pending {
        Seq::empty()
    } else {
        seq![EffectView::ScheduleHistorySave]
    }
}

impl AppModel {
    /// The batch of pages to render for the view, if any are missing, and the
    /// images that are kept.
    fn render_visible(&mut self, layout: &Layout, effects: &mut Vec<Effect>) -> (r: Ghost<Seq<usize>>)
        ensures
            ({
                let (first, last) = window(layout.starts@, layout.top_edge, layout.bottom);
                &&& final(self)@ == (ModelView {
                    painted: kept_pages(old(self)@.painted, first, last),
                    ..old(self)@
                })
                &&& is_render_order(r@, first, last, old(self)@.painted)
                &&& effect_views(final(effects)@) == effect_views(old(effects)@) + (if r@.len() > 0
                    && old(self)@.document_open {
                    seq![
                        EffectView::Render {
                            generation: old(self)@.render_gen,
                            zoom: old(self)@.zoom,
                            order: r@,
                        },
                    ]
                } else {
                    Seq::empty()
                }) + seq![EffectView::KeepImages(kept_pages(old(self)@.painted, first, last))]
            }),
    {
        let ghost start = effect_views(effects@);
        let (first, last) = visible_window(
            layout.starts.as_slice(),
            layout.top_edge,
            layout.bottom,
        );
        let order = render_order(first, last, self.painted.as_slice());
        let ghost listed = order@;
        if order.len() > 0 && self.document_open {
            emit(
                effects,
                Effect::Render(RenderJob { generation: self.render_gen, zoom: self.zoom, order }),
            );
        }
        let ghost middle = effect_views(effects@);
        assert(middle =~= start + (if listed.len() > 0 && self.document_open {
            seq![
                EffectView::Render { generation: self.render_gen, zoom: self.zoom, order: listed },
            ]
        } else {
            Seq::empty()
        }));
        self.painted = retain_pages(self.painted.as_slice(), first, last);
        emit(effects, Effect::KeepImages(slice_to_vec(self.painted.as_slice())));
        assert(effect_views(effects@) =~= middle + seq![EffectView::KeepImages(self.painted@)]);
        Ghost(listed)
    }

    /// Highlight the entry for what is on screen, if it has changed.
    fn update_toc_highlight(&mut self, page: Option<usize>, effects: &mut Vec<Effect>)
        ensures
            final(self)@ == (ModelView {
                pinned: still_pinned(old(self)@, page),
                highlighted: entry_on_screen(old(self)@, page),
                ..old(self)@
            }),
            effect_views(final(effects)@) == effect_views(old(effects)@) + (if entry_on_screen(
                old(self)@,
                page,
            ) != old(self)@.highlighted {
                seq![EffectView::Highlight(entry_on_screen(old(self)@, page))]
            } else {
                Seq::empty()
            }),
    {
        let ghost start = effect_views(effects@);
        let ghost before = self@;
        if let Some(entry) = self.pinned_toc {
            let own: Option<usize> = if entry < self.toc_entries.len() {
                assert(before.entries[entry as int] == self.toc_entries@[entry as int]@);
                Some(self.toc_entries[entry].page)
            } else {
                None
            };
            if page != own {
                self.pinned_toc = None;
            }
        }
        assert(self.pinned_toc == still_pinned(before, page));
        let target = match self.pinned_toc {
            Some(entry) => Some(entry),
            None => match page {
                Some(page) => self.active_toc_entry(page),
                None => None,
            },
        };
        assert(target == entry_on_screen(before, page));
        if target != self.highlighted_toc {
            self.highlighted_toc = target;
            emit(effects, Effect::Highlight(target));
        }
        assert(effect_views(effects@) =~= start + (if target != before.highlighted {
            seq![EffectView::Highlight(target)]
        } else {
            Seq::empty()
        }));
    }

    /// Scroll to the page that the document was left at, once the zoom has
    /// settled.
    fn restore_if_pending(&mut self, effects: &mut Vec<Effect>)
        ensures
            final(self)@ == (ModelView {
                pending_restore: if restores(old(self)@) {
                    None
                } else {
                    old(self)@.pending_restore
                },
                history: if restores(old(self)@) && old(self)@.path is Some {
                    visited(
                        old(self)@.history,
                        old(self)@.path->0,
                        old(self)@.pending_restore->0,
                    )
                } else {
                    old(self)@.history
                },
                ..old(self)@
            }),
            effect_views(final(effects)@) == effect_views(old(effects)@) + (if restores(
                old(self)@,
            ) {
                scrolls_to(old(self)@, old(self)@.pending_restore->0 as int)
            } else {
                Seq::empty()
            }),
    {
        let ghost start = effect_views(effects@);
        let page: usize = match self.pending_restore {
            Some(page) => page,
            None => {
                assert(start + Seq::<EffectView>::empty() =~= start);
                return ;
            },
        };
        if self.fit_mode && self.last_viewport_width == 0 {
            assert(start + Seq::<EffectView>::empty() =~= start);
            return ;
        }
        self.pending_restore = None;
        if let Some(path) = &self.path {
            self.history.set(path, page);
        }
        self.push_scroll(effects, page);
    }

    /// Go on once the view has settled: render what is missing, follow the
    /// view in the sidebar and return to where the document was left.
    pub fn settle(&mut self, layout: &Layout) -> (r: Vec<Effect>)
        ensures
            final(self)@ == model_settled(old(self)@, *layout),
            exists|order: Seq<usize>|
                is_render_order(
                    order,
                    window(layout.starts@, layout.top_edge, layout.bottom).0,
                    window(layout.starts@, layout.top_edge, layout.bottom).1,
                    old(self)@.painted,
                ) && effect_views(r@) == #[trigger] settled_effects(old(self)@, *layout, order),
    {
        let ghost m = self@;
        let mut effects = nothing();
        let Ghost(order) = self.render_visible(layout, &mut effects);
        let page = self.current_page(layout);
        let ghost m1 = self@;
        assert(still_pinned(m1, page) == still_pinned(m, page));
        assert(entry_on_screen(m1, page) == entry_on_screen(m, page));
        self.update_toc_highlight(page, &mut effects);
        self.restore_if_pending(&mut effects);
        emit(&mut effects, Effect::RecordPosition);
        assert(effect_views(effects@) =~= settled_effects(m, *layout, order));
        effects
    }

    /// Record the current page of the open document and have the history
    /// written in a while, so that it survives a crash.
    pub fn update_history_position(&mut self, layout: &Layout) -> (r: Vec<Effect>)
        ensures
            final(self)@ == model_recorded(
                old(self)@,
                page_at(old(self).n_pages as int, layout.starts@, layout.centre),
            ),
            effect_views(r@) == recorded_effects(old(self)@),
    {
        let mut effects = nothing();
        if self.pending_restore.is_some() {
            return effects;
        }
        let page = self.current_page(layout);
        if let Some(page) = page {
            if let Some(path) = &self.path {
                self.history.set(path, page);
            }
        }
        if self.history_save_pending {
            return effects;
        }
        self.history_save_pending = true;
        emit(&mut effects, Effect::ScheduleHistorySave);
        assert(effect_views(effects@) =~= seq![EffectView::ScheduleHistorySave]);
        effects
    }

    /// The time to write the history has come.
    pub fn history_due(&mut self) -> (r: Vec<Effect>)
        ensures
            final(self)@ == (ModelView { history_save_pending: false, ..old(self)@ }),
            effect_views(r@) == seq![EffectView::SaveHistory],
    {
        self.history_save_pending = false;
        let mut effects = nothing();
        emit(&mut effects, Effect::SaveHistory);
        assert(effect_views(effects@) =~= seq![EffectView::SaveHistory]);
        effects
    }

    /// The window closes: remember its size and the sidebar.
    pub fn close(&mut self, window: WindowConfig, sidebar: SidebarConfig) -> (r: Vec<Effect>)
        ensures
            final(self)@ == (ModelView {
                config: ConfigView { window, sidebar, ..old(self)@.config },
                ..old(self)@
            }),
            effect_views(r@) == seq![EffectView::SaveConfig, EffectView::SaveHistory],
    {
        self.config.window = window;
        self.config.sidebar = sidebar;
        let mut effects = nothing();
        emit(&mut effects, Effect::SaveConfig);
        emit(&mut effects, Effect::SaveHistory);
        assert(effect_views(effects@) =~= seq![EffectView::SaveConfig, EffectView::SaveHistory]);
        effects
    }
}

impl AppModel {
    /// Fit the document to the width of the view, if that has changed.
    fn apply_fit_width(&mut self, width: i32, fit_zoom: Double) -> (r: bool)
        requires
            old(self).render_gen < u64::MAX,
        ensures
            r == refits(old(self)@, width as int),
            final(self)@ == (if r {
                ModelView {
                    zoom: held(
                        fit_zoom,
                        Double { bits: ZOOM_LEAST },
                        Double { bits: ZOOM_MOST },
                    ),
                    last_viewport_width: width,
                    ..invalidated(old(self)@)
                }
            } else {
                old(self)@
            }),
    {
        if !self.fit_mode || !self.document_open {
            return false;
        }
        let change: i64 = width as i64 - self.last_viewport_width as i64;
        if width < 50 || (-8 < change && change < 8) {
            return false;
        }
        self.zoom = scroll_target(
            fit_zoom,
            Double { bits: ZOOM_LEAST },
            Double { bits: ZOOM_MOST },
        );
        self.last_viewport_width = width;
        self.invalidate_textures();
        true
    }

    /// Leave fitting to the width, now and in sessions to come.
    fn set_manual_zoom(&mut self)
        ensures
            final(self)@ == (ModelView {
                fit_mode: false,
                config: ConfigView { fit_width: false, ..old(self)@.config },
                ..old(self)@
            }),
    {
        self.fit_mode = false;
        self.config.fit_width = false;
    }

    /// Take in a new zoom that was set by hand.
    fn set_zoom(&mut self, zoom: Double) -> (r: Vec<Effect>)
        requires
            old(self).render_gen < u64::MAX,
        ensures
            final(self)@ == (ModelView {
                fit_mode: false,
                config: ConfigView { fit_width: false, ..old(self)@.config },
                zoom,
                ..invalidated(old(self)@)
            }),
            effect_views(r@) == seq![
                EffectView::SaveConfig,
                EffectView::ResizePages,
                EffectView::ClearImages,
            ],
    {
        self.set_manual_zoom();
        self.zoom = zoom;
        self.invalidate_textures();
        let mut effects = nothing();
        emit(&mut effects, Effect::SaveConfig);
        emit(&mut effects, Effect::ResizePages);
        emit(&mut effects, Effect::ClearImages);
        assert(effect_views(effects@) =~= seq![
            EffectView::SaveConfig,
            EffectView::ResizePages,
            EffectView::ClearImages,
        ]);
        effects
    }

    /// Open the file that `uri` names, unless it is open.
    fn open_file(&self, uri: &str, converted: &Option<FilePath>) -> (r: Vec<Effect>)
        ensures
            effect_views(r@) == (if is_open(self@, named_path(uri@, *converted)) {
                seq![EffectView::Present]
            } else {
                seq![
                    EffectView::Present,
                    EffectView::OpenDocument(named_path(uri@, *converted)),
                ]
            }),
    {
        let path = match converted {
            Some(path) => path.clone(),
            None => FilePath::new(uri),
        };
        let ghost bytes = path@;
        let mut effects = nothing();
        emit(&mut effects, Effect::Present);
        let known = match &self.path {
            Some(open) => self.document_open && open.same(&path),
            None => false,
        };
        if known {
            assert(effect_views(effects@) =~= seq![EffectView::Present]);
            return effects;
        }
        emit(&mut effects, Effect::OpenDocument(path));
        assert(effect_views(effects@) =~= seq![
            EffectView::Present,
            EffectView::OpenDocument(bytes),
        ]);
        effects
    }

    /// Go to an entry of the table of contents.
    fn go_to_entry(&mut self, index: usize) -> (r: Vec<Effect>)
        ensures
            final(self)@ == (if index < old(self)@.entries.len() {
                ModelView { pinned: Some(index), highlighted: Some(index), ..old(self)@ }
            } else {
                old(self)@
            }),
            effect_views(r@) == (if index < old(self)@.entries.len() {
                seq![EffectView::Highlight(Some(index))] + scrolls_to(
                    old(self)@,
                    old(self)@.entries[index as int].page as int,
                ) + seq![EffectView::FocusContent]
            } else {
                Seq::empty()
            }),
    {
        let ghost m = self@;
        let mut effects = nothing();
        if index < self.toc_entries.len() {
            assert(m.entries[index as int] == self.toc_entries@[index as int]@);
            let page: usize = self.toc_entries[index].page;
            self.pinned_toc = Some(index);
            self.highlighted_toc = Some(index);
            emit(&mut effects, Effect::Highlight(Some(index)));
            self.push_scroll(&mut effects, page);
            emit(&mut effects, Effect::FocusContent);
            assert(effect_views(effects@) =~= seq![EffectView::Highlight(Some(index))]
                + scrolls_to(m, page as int) + seq![EffectView::FocusContent]);
        }
        effects
    }

    /// Take in the image of a page, unless it is for an older state of the
    /// document.
    fn page_rendered(
        &mut self,
        generation: u64,
        zoom: Double,
        index: usize,
        result: Result<(i32, i32, Vec<u8>), String>,
    ) -> (r: Vec<Effect>)
        ensures
            final(self)@ == (if result is Ok && is_wanted(old(self)@, generation, zoom, index) {
                ModelView { painted: old(self)@.painted.push(index), ..old(self)@ }
            } else {
                old(self)@
            }),
            effect_views(r@) == (if is_wanted(old(self)@, generation, zoom, index) {
                match result {
                    Ok((width, height, bytes)) => seq![
                        EffectView::StoreImage { index, width, height, bytes: bytes@ },
                    ],
                    Err(error) => seq![
                        EffectView::ReportPage { page: (index + 1) as usize, error: error@ },
                    ],
                }
            } else {
                Seq::empty()
            }),
    {
        let mut effects = nothing();
        if generation != self.render_gen || !zoom.equals(self.zoom) || index >= self.n_pages
            || has_page(self.painted.as_slice(), index) {
            return effects;
        }
        match result {
            Ok((width, height, bytes)) => {
                let ghost data = bytes@;
                self.painted.push(index);
                emit(&mut effects, Effect::StoreImage { index, width, height, bytes });
                assert(effect_views(effects@) =~= seq![
                    EffectView::StoreImage { index, width, height, bytes: data },
                ]);
            },
            Err(error) => {
                let ghost text = error@;
                emit(&mut effects, Effect::ReportPage { page: index + 1, error });
                assert(effect_views(effects@) =~= seq![
                    EffectView::ReportPage { page: (index + 1) as usize, error: text },
                ]);
            },
        }
        effects
    }

    /// Open the picker, unless it is open.
    fn pick_file(&mut self, home: &Option<FilePath>) -> (r: Vec<Effect>)
        ensures
            final(self)@ == (ModelView { picker_open: true, ..old(self)@ }),
            effect_views(r@) == (if old(self)@.picker_open {
                Seq::empty()
            } else {
                seq![
                    EffectView::OpenPicker {
                        root: expanded(old(self)@.config.picker.root@, home_text(*home)),
                        width: old(self)@.config.picker.width,
                        height: old(self)@.config.picker.height,
                    },
                ]
            }),
    {
        let mut effects = nothing();
        if self.picker_open {
            return effects;
        }
        let root = expand_root(self.config.picker.root.as_str(), home);
        let ghost dir = root@;
        let width: i32 = self.config.picker.width;
        let height: i32 = self.config.picker.height;
        emit(&mut effects, Effect::OpenPicker { root, width, height });
        assert(effect_views(effects@) =~= seq![EffectView::OpenPicker { root: dir, width, height }]);
        self.picker_open = true;
        effects
    }

    /// Let go of the picker and open what it gave.
    fn picker_result(&mut self, path: Option<FilePath>) -> (r: Vec<Effect>)
        ensures
            final(self)@ == (ModelView { picker_open: false, ..old(self)@ }),
            effect_views(r@) == (match path {
                Some(path) => seq![EffectView::DropPicker, EffectView::SendOpen(shown(path@))],
                None => seq![EffectView::DropPicker],
            }),
    {
        self.picker_open = false;
        let mut effects = nothing();
        emit(&mut effects, Effect::DropPicker);
        match path {
            Some(path) => {
                emit(&mut effects, Effect::SendOpen(path.text()));
                assert(effect_views(effects@) =~= seq![
                    EffectView::DropPicker,
                    EffectView::SendOpen(shown(path@)),
                ]);
            },
            None => {
                assert(effect_views(effects@) =~= seq![EffectView::DropPicker]);
            },
        }
        effects
    }

    /// Take in a message and say what is to be done, in order.
    pub fn update(&mut self, msg: AppMsg, around: &Around) -> (r: Vec<Effect>)
        requires
            old(self).render_gen < u64::MAX,
            old(self).search.generation < u64::MAX,
            msg matches AppMsg::SearchResults { hits, .. } ==> hit_count(hit_lists(hits@))
                <= usize::MAX,
        ensures
            final(self)@ == model_after(old(self)@, msg, *around),
            effect_views(r@) == model_effects(old(self)@, msg, *around),
    {
        let ghost m = self@;
        let mut effects = nothing();
        match msg {
            AppMsg::OpenFile(uri) => {
                return self.open_file(uri.as_str(), &around.converted);
            },
            AppMsg::ZoomIn => {
                if self.document_open {
                    return self.set_zoom(lesser(around.zoomed, Double { bits: ZOOM_MOST }));
                }
            },
            AppMsg::ZoomOut => {
                if self.document_open {
                    return self.set_zoom(greater(around.zoomed, Double { bits: ZOOM_LEAST }));
                }
            },
            AppMsg::GoToEntry(index) => {
                return self.go_to_entry(index);
            },
            AppMsg::GoToPage(number) => {
                if self.n_pages > 0 {
                    let page: usize = (number as usize).saturating_sub(1);
                    let last: usize = self.n_pages - 1;
                    self.push_scroll(
                        &mut effects,
                        if page < last {
                            page
                        } else {
                            last
                        },
                    );
                }
                assert(effect_views(effects@) =~= scrolls_to(m, typed_page(m, number)));
            },
            AppMsg::ViewportChanged => {
                if self.apply_fit_width(around.width, around.fit_zoom) {
                    emit(&mut effects, Effect::ResizePages);
                    emit(&mut effects, Effect::ClearImages);
                }
                emit(&mut effects, Effect::Settle);
                assert(effect_views(effects@) =~= (if refits(m, around.width as int) {
                    seq![EffectView::ResizePages, EffectView::ClearImages, EffectView::Settle]
                } else {
                    seq![EffectView::Settle]
                }));
            },
            AppMsg::ScrollDown => {
                emit(&mut effects, Effect::Scroll(ScrollStep::Down));
                assert(effect_views(effects@) =~= seq![EffectView::Scroll(ScrollStep::Down)]);
            },
            AppMsg::ScrollUp => {
                emit(&mut effects, Effect::Scroll(ScrollStep::Up));
                assert(effect_views(effects@) =~= seq![EffectView::Scroll(ScrollStep::Up)]);
            },
            AppMsg::ScrollLeft => {
                emit(&mut effects, Effect::Scroll(ScrollStep::Left));
                assert(effect_views(effects@) =~= seq![EffectView::Scroll(ScrollStep::Left)]);
            },
            AppMsg::ScrollRight => {
                emit(&mut effects, Effect::Scroll(ScrollStep::Right));
                assert(effect_views(effects@) =~= seq![EffectView::Scroll(ScrollStep::Right)]);
            },
            AppMsg::ScrollTop => {
                emit(&mut effects, Effect::Scroll(ScrollStep::Start));
                assert(effect_views(effects@) =~= seq![EffectView::Scroll(ScrollStep::Start)]);
            },
            AppMsg::ScrollBottom => {
                emit(&mut effects, Effect::Scroll(ScrollStep::End));
                assert(effect_views(effects@) =~= seq![EffectView::Scroll(ScrollStep::End)]);
            },
            AppMsg::PageRendered { generation, zoom, index, result } => {
                return self.page_rendered(generation, zoom, index, result);
            },
            AppMsg::ToggleSidebar => {
                let collapsed = !around.sidebar_collapsed;
                self.config.sidebar.collapsed = collapsed;
                emit(&mut effects, Effect::CollapseSidebar(collapsed));
                emit(&mut effects, Effect::SaveConfig);
                assert(effect_views(effects@) =~= seq![
                    EffectView::CollapseSidebar(collapsed),
                    EffectView::SaveConfig,
                ]);
            },
            AppMsg::FocusSidebar => {
                let entry = if self.highlighted_toc.is_none() && self.toc_entries.len() > 0 {
                    Some(0)
                } else {
                    self.highlighted_toc
                };
                emit(&mut effects, Effect::FocusEntry(entry));
                assert(effect_views(effects@) =~= seq![EffectView::FocusEntry(entry)]);
            },
            AppMsg::FocusPdf => {
                emit(&mut effects, Effect::FocusContent);
                assert(effect_views(effects@) =~= seq![EffectView::FocusContent]);
            },
            AppMsg::PickFile => {
                return self.pick_file(&around.home);
            },
            AppMsg::PickerResult(path) => {
                return self.picker_result(path);
            },
            AppMsg::OpenSearch => {
                self.search.open = true;
                emit(&mut effects, Effect::ShowSearchBar(true));
                emit(&mut effects, Effect::FocusSearch);
                assert(effect_views(effects@) =~= seq![
                    EffectView::ShowSearchBar(true),
                    EffectView::FocusSearch,
                ]);
            },
            AppMsg::CloseSearch => {
                if self.search.open {
                    self.search.open = false;
                    emit(&mut effects, Effect::ShowSearchBar(false));
                    emit(&mut effects, Effect::FocusContent);
                    assert(effect_views(effects@) =~= seq![
                        EffectView::ShowSearchBar(false),
                        EffectView::FocusContent,
                    ]);
                }
            },
            AppMsg::SearchQuery(text) => {
                let n_pages: usize = self.n_pages;
                return self.search.set_query(text, n_pages);
            },
            AppMsg::SearchRun(query) => {
                let n_pages: usize = self.n_pages;
                return self.search.run(query, &self.path, n_pages);
            },
            AppMsg::SearchResults { generation, hits } => {
                if generation == self.search.generation {
                    let n_pages: usize = self.n_pages;
                    return self.search.apply_search_results(hits, n_pages);
                }
            },
            AppMsg::SearchNext => {
                let n_pages: usize = self.n_pages;
                return self.search.step_match(1, n_pages);
            },
            AppMsg::SearchPrev => {
                let n_pages: usize = self.n_pages;
                return self.search.step_match(-1, n_pages);
            },
        }
        effects
    }
}

/// Whether a hidden sidebar comes back: the document is no longer the page
/// that shows.
pub fn sidebar_returns(shows_content: bool, collapsed: bool) -> (r: bool)
    ensures
        r == (!shows_content && collapsed),
{
    !shows_content && collapsed
}

/// Two messages that say the same are alike in all they carry.
pub proof fn law_same_messages_say_the_same(a: AppMsg, b: AppMsg)
    requires
        a.same_as(b),
    ensures
        !(a is PageRendered) && !(a is SearchResults) && !(a is PickerResult) ==> a == b,
        a matches AppMsg::PageRendered { generation, zoom, index, result } ==> {
            &&& b matches AppMsg::PageRendered { generation: g, zoom: z, index: i, result: r }
            &&& generation == g
            &&& zoom == z
            &&& index == i
            &&& result is Ok <==> r is Ok
            &&& result is Ok ==> result->Ok_0.2@ == r->Ok_0.2@ && result->Ok_0.0 == r->Ok_0.0
                && result->Ok_0.1 == r->Ok_0.1
            &&& result is Err ==> result->Err_0@ == r->Err_0@
        },
        a matches AppMsg::SearchResults { generation, hits } ==> {
            &&& b matches AppMsg::SearchResults { generation: g, hits: h }
            &&& generation == g
            &&& hit_lists(hits@) == hit_lists(h@)
        },
        a matches AppMsg::PickerResult(path) ==> {
            &&& b matches AppMsg::PickerResult(other)
            &&& path_view(path) == path_view(other)
        },
{
}

} // verus!
