//! What holds of the reader as a whole.
use vstd::prelude::*;
use vstd::utf8::{decode_utf8, encode_utf8, valid_utf8};

use crate::app::{
    active_entry, entry_on_screen, hit_lists, is_wanted, left_at, loaded_effects, model_after,
    model_effects, model_loaded, model_recorded, model_settled, named_path, page_at,
    recorded_effects, refits, restores, scrolls_to, settled_effects, start_effects, still_pinned,
    typed_page, AppMsg, Around, Layout, ModelView, ZOOM_LEAST, ZOOM_MOST,
};
use crate::config::ConfigView;
use crate::double::{law_count_splits_the_pages, lemma_lead, Double};
use crate::effect::{EffectView, ScrollStep};
use crate::history::{
    law_same_path_same_page, law_set_is_remembered, law_set_keeps_the_others,
    law_visit_keeps_the_others_with_room, others, page_of, same_path, visited,
};
use crate::paths::{
    is_file_name, law_file_name_follows_the_last_separator, shown, FilePath, DOT, SLASH,
};
use crate::pdf::{kept_entries, outline_entries, EntryView, MatchRect, PdfDoc};
use crate::picker::{expanded, home_text};
use crate::render::{kept_pages, window};
use crate::search::{
    law_found_matches_start_at_the_first, law_search_stays_settled,
    law_step_shows_the_match_it_makes_active, matches_before, reset_effects, settled, SearchView,
};

verus! {

/// The entry that covers a page is the one with the greatest page that is not
/// past it; of several, the last. There is none only before all entries.
pub proof fn law_active_entry_covers_the_page(entries: Seq<EntryView>, page: usize)
    requires
        entries.len() <= usize::MAX,
    ensures
        match active_entry(entries, page) {
            Some(i) => {
                &&& i < entries.len()
                &&& entries[i as int].page <= page
                &&& forall|j: int|
                    0 <= j < entries.len() && (#[trigger] entries[j]).page <= page
                        ==> entries[j].page < entries[i as int].page || (entries[j].page
                        == entries[i as int].page && j <= i)
            },
            None => forall|j: int| 0 <= j < entries.len() ==> (#[trigger] entries[j]).page > page,
        },
    decreases entries.len(),
{
    if entries.len() > 0 {
        let front = entries.drop_last();
        law_active_entry_covers_the_page(front, page);
        assert(entries.last() == entries[entries.len() - 1]);
        assert forall|j: int| 0 <= j < front.len() implies #[trigger] entries[j] == front[j] by {}
    }
}

/// The typed page number leads to a page of the document: the one it names,
/// or the nearest there is.
pub proof fn law_typed_page_is_in_the_document(m: ModelView, number: u32)
    requires
        m.n_pages > 0,
    ensures
        0 <= typed_page(m, number) < m.n_pages,
        1 <= number <= m.n_pages ==> typed_page(m, number) == number - 1,
        scrolls_to(m, typed_page(m, number)) == seq![
            EffectView::ScrollToPage(typed_page(m, number) as usize),
        ],
{
}

/// An image that was asked for in an older state of the document, or at
/// another zoom, is dropped.
pub proof fn law_stale_image_is_dropped(m: ModelView, msg: AppMsg, around: Around)
    requires
        msg matches AppMsg::PageRendered { generation, zoom, .. } && (generation != m.render_gen
            || !zoom.same(m.zoom)),
    ensures
        model_after(m, msg, around) == m,
        model_effects(m, msg, around).len() == 0,
{
}

/// Zooming and fitting to a new width make every image stale that was asked
/// for before.
pub proof fn law_zoom_outdates_images(
    m: ModelView,
    msg: AppMsg,
    around: Around,
    zoom: Double,
    index: usize,
)
    requires
        m.render_gen < u64::MAX,
        m.document_open,
        msg is ZoomIn || msg is ZoomOut || (msg is ViewportChanged && refits(
            m,
            around.width as int,
        )),
    ensures
        model_after(m, msg, around).painted.len() == 0,
        !is_wanted(model_after(m, msg, around), m.render_gen, zoom, index),
{
}

/// Opening a document makes every image stale that was asked for before, and
/// the answer of every search that ran.
pub proof fn law_opening_outdates_images_and_searches(
    m: ModelView,
    path: Seq<u8>,
    pages: usize,
    entries: Seq<EntryView>,
    page: Option<usize>,
    generation: u64,
    zoom: Double,
    index: usize,
)
    requires
        m.render_gen + 2 <= u64::MAX,
        m.search.generation < u64::MAX,
        generation <= m.render_gen,
    ensures
        !is_wanted(model_loaded(m, path, pages, entries, page), generation, zoom, index),
        model_loaded(m, path, pages, entries, page).search.generation > m.search.generation,
        model_loaded(m, path, pages, entries, page).search.hits.len() == 0,
{
}

/// The answer of a search that was overtaken is dropped.
pub proof fn law_stale_search_is_dropped(m: ModelView, msg: AppMsg, around: Around)
    requires
        msg matches AppMsg::SearchResults { generation, .. } && generation != m.search.generation,
    ensures
        model_after(m, msg, around) == m,
        model_effects(m, msg, around).len() == 0,
{
}

/// Moving the keyboard to the sidebar neither scrolls the document nor changes
/// what is highlighted.
pub proof fn law_focusing_the_sidebar_leaves_the_view(m: ModelView, around: Around)
    ensures
        model_after(m, AppMsg::FocusSidebar, around) == m,
        model_effects(m, AppMsg::FocusSidebar, around).len() == 1,
        model_effects(m, AppMsg::FocusSidebar, around)[0] is FocusEntry,
{
}

/// A file that is open is not opened again, however its path is written.
pub proof fn law_open_file_is_not_reopened(m: ModelView, uri: String, around: Around)
    requires
        m.document_open,
        m.path is Some,
        same_path(m.path->0, named_path(uri@, around.converted)),
    ensures
        model_after(m, AppMsg::OpenFile(uri), around) == m,
        model_effects(m, AppMsg::OpenFile(uri), around) == seq![EffectView::Present],
{
}

/// An entry that was chosen stays highlighted while the view is on its page,
/// whatever other entries share the page.
pub proof fn law_chosen_entry_stays_highlighted(m: ModelView, index: usize, around: Around)
    requires
        index < m.entries.len(),
    ensures
        ({
            let after = model_after(m, AppMsg::GoToEntry(index), around);
            let page = Some(m.entries[index as int].page);
            &&& entry_on_screen(after, page) == Some(index)
            &&& still_pinned(after, page) == Some(index)
        }),
{
}

/// Once the view is elsewhere the chosen entry is let go, and what is
/// highlighted follows the view.
pub proof fn law_leaving_the_page_lets_the_entry_go(m: ModelView, page: usize)
    requires
        m.pinned matches Some(entry) ==> entry < m.entries.len() && m.entries[entry as int].page
            != page,
    ensures
        still_pinned(m, Some(page)) is None,
        entry_on_screen(m, Some(page)) == active_entry(m.entries, page),
{
}

/// The picker is not opened twice.
pub proof fn law_picker_opens_once(m: ModelView, around: Around)
    ensures
        model_effects(model_after(m, AppMsg::PickFile, around), AppMsg::PickFile, around).len()
            == 0,
{
}

/// Zooming by hand leaves fitting to the width: no change of the view's width
/// changes the zoom from then on.
pub proof fn law_zoom_by_hand_ends_fitting(m: ModelView, msg: AppMsg, around: Around, later: Around)
    requires
        m.document_open,
        msg is ZoomIn || msg is ZoomOut,
    ensures
        ({
            let after = model_after(m, msg, around);
            &&& !after.fit_mode
            &&& !after.config.fit_width
            &&& model_after(after, AppMsg::ViewportChanged, later) == after
        }),
{
}

/// The zoom never leaves its range: one step in does not pass the largest,
/// one step out not the smallest, and fitting neither.
pub proof fn law_zoom_stays_in_range(m: ModelView, around: Around)
    requires
        m.document_open,
    ensures
        model_after(m, AppMsg::ZoomIn, around).zoom.le(Double { bits: ZOOM_MOST }),
        (Double { bits: ZOOM_LEAST }).le(model_after(m, AppMsg::ZoomOut, around).zoom),
        refits(m, around.width as int) && !around.fit_zoom.is_nan() ==> {
            let zoom = model_after(m, AppMsg::ViewportChanged, around).zoom;
            (Double { bits: ZOOM_LEAST }).le(zoom) && zoom.le(Double { bits: ZOOM_MOST })
        },
{
}

/// While writing the history is scheduled it is not scheduled again.
pub proof fn law_history_is_scheduled_once(m: ModelView, page: Option<usize>)
    requires
        m.pending_restore is None,
    ensures
        recorded_effects(model_recorded(m, page)).len() == 0,
{
}

/// A position that is to be restored is not overwritten before it is.
pub proof fn law_pending_position_is_kept(m: ModelView, page: Option<usize>)
    requires
        m.pending_restore is Some,
    ensures
        model_recorded(m, page) == m,
        recorded_effects(m).len() == 0,
{
}

/// A position is restored once.
pub proof fn law_position_is_restored_once(m: ModelView, layout: Layout)
    ensures
        !restores(model_settled(m, layout)),
{
}

/// The document that was opened last is opened again at the start: no message
/// changes which it was, and what is sent leads to its path. Its path must be
/// text.
pub proof fn law_last_file_is_opened_again(
    m: ModelView,
    path: Seq<u8>,
    pages: usize,
    entries: Seq<EntryView>,
    page: Option<usize>,
    msg: AppMsg,
    around: Around,
)
    requires
        valid_utf8(path),
    ensures
        ({
            let loaded = model_loaded(m, path, pages, entries, page);
            &&& start_effects(loaded) == seq![EffectView::SendOpen(decode_utf8(path))]
            &&& start_effects(model_after(loaded, msg, around)) == start_effects(loaded)
            &&& named_path(decode_utf8(path), None) == path
        }),
{
    broadcast use vstd::utf8::decode_utf8_encode_utf8;

}

/// What was visited last but one is still known, with its page.
proof fn lemma_previous_is_known(
    h: Seq<(Seq<u8>, usize)>,
    a: Seq<u8>,
    p: usize,
    b: Seq<u8>,
    q: usize,
)
    requires
        !same_path(a, b),
    ensures
        page_of(visited(visited(h, a, p), b, q), a) == Some(p),
        page_of(visited(h, a, p), a) == Some(p),
{
    let first = visited(h, a, p);
    assert(first[0] == (a, p));
    assert(same_path(a, a));
    lemma_others_first(first, b);
    let second = visited(first, b, q);
    let rest = others(first, b);
    assert((seq![(b, q)] + rest)[1] == rest[0]);
    assert(second[0] == (b, q));
    assert(second[1] == (a, p));
    assert(second.skip(1)[0] == (a, p));
    assert(page_of(second.skip(1), a) == Some(p));
    assert(!same_path(b, a));
}

proof fn lemma_others_first(h: Seq<(Seq<u8>, usize)>, b: Seq<u8>)
    requires
        h.len() > 0,
        !same_path(h[0].0, b),
    ensures
        others(h, b).len() > 0,
        others(h, b)[0] == h[0],
    decreases h.len(),
{
    if h.len() > 1 {
        assert(h.drop_last()[0] == h[0]);
        lemma_others_first(h.drop_last(), b);
    } else {
        assert(h.last() == h[0]);
        assert(others(h.drop_last(), b) =~= Seq::empty());
    }
}

/// Leaving a document for another one and coming back restores the page that
/// it was left at, wherever the other one was left.
pub proof fn law_position_survives_a_visit(
    m: ModelView,
    other: Seq<u8>,
    pages: usize,
    entries: Seq<EntryView>,
    page: usize,
    other_page: Option<usize>,
    pages_again: usize,
    entries_again: Seq<EntryView>,
)
    requires
        m.path is Some,
        !same_path(m.path->0, other),
    ensures
        ({
            let away = model_loaded(m, other, pages, entries, Some(page));
            let back = model_loaded(away, m.path->0, pages_again, entries_again, other_page);
            back.pending_restore == Some(page)
        }),
{
    let path = m.path->0;
    let away = model_loaded(m, other, pages, entries, Some(page));
    match other_page {
        Some(q) => {
            lemma_previous_is_known(m.history, path, page, other, q);
        },
        None => {
            lemma_previous_is_known(m.history, path, page, other, 0);
            assert(left_at(away, other_page) == away.history);
        },
    }
}

/// What the reader keeps at all times: images of pages of the document, each
/// once, entries of the table of contents, and matches that agree.
pub open spec fn consistent(m: ModelView) -> bool {
    &&& m.painted.no_duplicates()
    &&& forall|i: int| 0 <= i < m.painted.len() ==> (#[trigger] m.painted[i]) < m.n_pages
    &&& m.entries.len() <= usize::MAX
    &&& m.highlighted matches Some(i) ==> i < m.entries.len()
    &&& m.pinned matches Some(i) ==> i < m.entries.len()
    &&& settled(m.search, m.n_pages as int)
}

/// No message makes the reader inconsistent. The matches that come in must lie
/// in the document.
pub proof fn law_messages_keep_the_reader_consistent(m: ModelView, msg: AppMsg, around: Around)
    requires
        consistent(m),
        msg matches AppMsg::SearchResults { generation, hits } ==> (generation
            == m.search.generation ==> hits@.len() <= m.n_pages),
    ensures
        consistent(model_after(m, msg, around)),
{
    let n = m.n_pages as int;
    let none = Seq::empty();
    match msg {
        AppMsg::SearchQuery(text) => {
            law_search_stays_settled(m.search, n, text@, m.path, none, 0, 0);
        },
        AppMsg::SearchRun(_) => {
            law_search_stays_settled(m.search, n, Seq::empty(), m.path, none, 0, 0);
        },
        AppMsg::SearchResults { generation, hits } => {
            if generation == m.search.generation {
                law_search_stays_settled(
                    m.search,
                    n,
                    Seq::empty(),
                    m.path,
                    hit_lists(hits@),
                    0,
                    0,
                );
            }
        },
        AppMsg::SearchNext => {
            law_search_stays_settled(m.search, n, Seq::empty(), m.path, none, 1, 0);
        },
        AppMsg::SearchPrev => {
            law_search_stays_settled(m.search, n, Seq::empty(), m.path, none, -1, 0);
        },
        _ => {},
    }
}

/// Opening a document leaves the reader consistent.
pub proof fn law_opening_keeps_the_reader_consistent(
    m: ModelView,
    path: Seq<u8>,
    pages: usize,
    entries: Seq<EntryView>,
    page: Option<usize>,
)
    requires
        consistent(m),
        entries.len() <= usize::MAX,
    ensures
        consistent(model_loaded(m, path, pages, entries, page)),
{
    law_search_stays_settled(
        m.search,
        m.n_pages as int,
        Seq::empty(),
        m.path,
        Seq::empty(),
        0,
        pages as int,
    );
}

/// Settling and recording the position keep the reader consistent.
pub proof fn law_settling_keeps_the_reader_consistent(
    m: ModelView,
    layout: Layout,
    page: Option<usize>,
)
    requires
        consistent(m),
    ensures
        consistent(model_settled(m, layout)),
        consistent(model_recorded(m, page)),
{
    let (first, last) = window(layout.starts@, layout.top_edge, layout.bottom);
    lemma_kept_distinct(m.painted, first, last);
    match page_at(m.n_pages as int, layout.starts@, layout.centre) {
        Some(p) => {
            law_active_entry_covers_the_page(m.entries, p);
        },
        None => {},
    }
}

proof fn lemma_kept_distinct(painted: Seq<usize>, first: int, last: int)
    requires
        painted.no_duplicates(),
    ensures
        kept_pages(painted, first, last).no_duplicates(),
        forall|i: int|
            0 <= i < kept_pages(painted, first, last).len() ==> painted.contains(
                #[trigger] kept_pages(painted, first, last)[i],
            ),
    decreases painted.len(),
{
    if painted.len() > 0 {
        let front = painted.drop_last();
        lemma_kept_distinct(front, first, last);
        let kept = kept_pages(front, first, last);
        let all = kept_pages(painted, first, last);
        assert forall|i: int| 0 <= i < kept.len() implies painted.contains(kept[i]) && kept[i]
            != painted.last() by {
            let k = choose|k: int| 0 <= k < front.len() && front[k] == kept[i];
            assert(painted[k] == kept[i]);
        }
        assert(painted.contains(painted.last())) by {
            assert(painted[painted.len() - 1] == painted.last());
        }
        assert forall|i: int| 0 <= i < all.len() implies painted.contains(#[trigger] all[i]) by {
            if i < kept.len() {
                assert(all[i] == kept[i]);
            }
        }
    }
}

/// The page under the middle of the view is one of the document.
pub proof fn law_current_page_is_in_the_document(n_pages: int, starts: Seq<Double>, centre: Double)
    requires
        0 < n_pages <= usize::MAX,
    ensures
        page_at(n_pages, starts, centre) is Some,
        page_at(n_pages, starts, centre)->0 < n_pages,
{
    lemma_lead(starts, centre, true);
}

proof fn lemma_kept_pages_in_document(entries: Seq<EntryView>, last: usize)
    ensures
        forall|i: int|
            0 <= i < kept_entries(entries, last).len() ==> (#[trigger] kept_entries(
                entries,
                last,
            )[i]).page <= last,
    decreases entries.len(),
{
    if entries.len() > 0 {
        lemma_kept_pages_in_document(entries.drop_last(), last);
        let front = kept_entries(entries.drop_last(), last);
        let all = kept_entries(entries, last);
        assert forall|i: int| 0 <= i < all.len() implies (#[trigger] all[i]).page <= last by {
            if i < front.len() {
                assert(all[i] == front[i]);
            }
        }
    }
}

/// Every entry of the table of contents leads to a page of the document, if it
/// has pages at all.
pub proof fn law_entries_lead_into_the_document(
    m: ModelView,
    path: Seq<u8>,
    doc: PdfDoc,
    page: Option<usize>,
    i: int,
)
    requires
        doc.page_count > 0,
        0 <= i < kept_entries(outline_entries(doc.outline@, 0), doc.last_page()).len(),
    ensures
        ({
            let entries = kept_entries(outline_entries(doc.outline@, 0), doc.last_page());
            let after = model_loaded(m, path, doc.pages(), entries, page);
            scrolls_to(after, entries[i].page as int) == seq![
                EffectView::ScrollToPage(entries[i].page),
            ]
        }),
{
    let entries = kept_entries(outline_entries(doc.outline@, 0), doc.last_page());
    lemma_kept_pages_in_document(outline_entries(doc.outline@, 0), doc.last_page());
    assert(entries[i].page <= doc.last_page());
}

/// The page under the middle of the view is the last that starts there or
/// above; the first page, if all start below. Without pages there is none.
pub proof fn law_current_page_is_under_the_middle(starts: Seq<Double>, centre: Double)
    requires
        starts.len() <= usize::MAX,
        forall|i: int, j: int| 0 <= i < j < starts.len() ==> starts[i].le(starts[j]),
    ensures
        ({
            let at = page_at(starts.len() as int, starts, centre);
            let p = at->0 as int;
            &&& starts.len() == 0 ==> at is None
            &&& starts.len() > 0 ==> {
                &&& at is Some
                &&& p < starts.len()
                &&& starts[p].le(centre) || p == 0
                &&& forall|i: int|
                    p < i < starts.len() ==> !(#[trigger] starts[i]).le(centre)
            }
        }),
{
    law_count_splits_the_pages(starts, centre, true);
    lemma_lead(starts, centre, true);
}

/// Recording the position of the open document makes it the latest in the
/// history, at the page that shows. Every other document keeps its page, as far
/// as there is room. Writing the history is scheduled, unless it already is;
/// nothing else changes.
pub proof fn law_recorded_position_is_remembered(
    m: ModelView,
    path: Seq<u8>,
    page: usize,
    other: Seq<u8>,
)
    requires
        m.pending_restore is None,
        m.path == Some(path),
        !same_path(path, other),
    ensures
        ({
            let after = model_recorded(m, Some(page));
            &&& page_of(after.history, path) == Some(page)
            &&& after.history.len() > 0
            &&& after.history[0] == (path, page)
            &&& m.history.len() < 50 ==> page_of(after.history, other) == page_of(m.history, other)
            &&& page_of(m.history, other) is None ==> page_of(after.history, other) is None
            &&& after == (ModelView {
                history: after.history,
                history_save_pending: true,
                ..m
            })
            &&& recorded_effects(m).contains(EffectView::ScheduleHistorySave)
                <==> !m.history_save_pending
        }),
{
    law_set_is_remembered(m.history, path, page);
    if m.history.len() < 50 {
        law_visit_keeps_the_others_with_room(m.history, path, page, other);
    }
    if page_of(m.history, other) is None {
        law_set_keeps_the_others(m.history, path, page, other);
    }
    if !m.history_save_pending {
        assert(recorded_effects(m)[0] == EffectView::ScheduleHistorySave);
    }
}

/// With no document, or no page to show, there is no position to record: the
/// history stays as it is.
pub proof fn law_nothing_shown_is_not_recorded(m: ModelView, page: Option<usize>)
    requires
        m.path is None || page is None,
    ensures
        model_recorded(m, page).history == m.history,
{
}

/// Once the zoom has settled, a document that was left at a page is scrolled
/// there, and that page becomes its position; before that, it waits and the
/// history stays.
pub proof fn law_left_page_is_scrolled_to(m: ModelView, layout: Layout, order: Seq<usize>)
    requires
        m.pending_restore is Some,
    ensures
        ({
            let after = model_settled(m, layout);
            let effects = settled_effects(m, layout, order);
            let page = m.pending_restore->0;
            let waits = m.fit_mode && m.last_viewport_width == 0;
            &&& !waits ==> {
                &&& after.pending_restore is None
                &&& m.path is Some ==> page_of(after.history, m.path->0) == Some(page)
                &&& page < m.n_pages ==> effects.contains(EffectView::ScrollToPage(page))
            }
            &&& waits ==> {
                &&& after.pending_restore == m.pending_restore
                &&& after.history == m.history
                &&& forall|k: int|
                    0 <= k < effects.len() ==> !((#[trigger] effects[k]) is ScrollToPage)
            }
        }),
{
    let effects = settled_effects(m, layout, order);
    let page = m.pending_restore->0;
    if restores(m) {
        if m.path is Some {
            law_set_is_remembered(m.history, m.path->0, page);
        }
        if page < m.n_pages {
            assert(effects.len() >= 2);
            assert(effects[effects.len() - 2] == EffectView::ScrollToPage(page));
        }
    }
}

/// Without a page to return to, settling neither scrolls nor touches the
/// history.
pub proof fn law_settling_stays_where_it_is(m: ModelView, layout: Layout, order: Seq<usize>)
    requires
        m.pending_restore is None,
    ensures
        model_settled(m, layout).history == m.history,
        model_settled(m, layout).pending_restore is None,
        forall|k: int|
            0 <= k < settled_effects(m, layout, order).len() ==> !((#[trigger] settled_effects(
                m,
                layout,
                order,
            )[k]) is ScrollToPage),
{
}

/// Settling asks for the missing pages at the zoom and for the state of the
/// document that there are now, keeps the images that the reader still counts,
/// shows the entry that it has highlighted if that changed, and has the
/// position recorded last.
pub proof fn law_settling_shows_what_it_keeps(m: ModelView, layout: Layout, order: Seq<usize>)
    ensures
        ({
            let after = model_settled(m, layout);
            let effects = settled_effects(m, layout, order);
            &&& effects.len() > 0
            &&& effects.last() == EffectView::RecordPosition
            &&& effects.contains(EffectView::KeepImages(after.painted))
            &&& after.highlighted != m.highlighted <==> effects.contains(
                EffectView::Highlight(after.highlighted),
            )
            &&& m.document_open && order.len() > 0 <==> effects.contains(
                EffectView::Render { generation: m.render_gen, zoom: m.zoom, order },
            )
            &&& after == (ModelView {
                painted: after.painted,
                pinned: after.pinned,
                highlighted: after.highlighted,
                pending_restore: after.pending_restore,
                history: after.history,
                ..m
            })
        }),
{
    let after = model_settled(m, layout);
    let effects = settled_effects(m, layout, order);
    let n: int = if order.len() > 0 && m.document_open {
        1
    } else {
        0
    };
    assert(effects[n] == EffectView::KeepImages(after.painted));
    if n == 1 {
        assert(effects[0] == (EffectView::Render {
            generation: m.render_gen,
            zoom: m.zoom,
            order,
        }));
    }
    if after.highlighted != m.highlighted {
        assert(effects[n + 1] == EffectView::Highlight(after.highlighted));
    }
}

/// An image stays while its page is no more than four pages away from those
/// that are wanted; nothing else is kept.
pub proof fn law_near_images_are_kept(painted: Seq<usize>, first: int, last: int, page: usize)
    ensures
        kept_pages(painted, first, last).contains(page) <==> painted.contains(page) && first - 4
            <= page <= last + 4,
    decreases painted.len(),
{
    if painted.len() > 0 {
        let front = painted.drop_last();
        let kept = kept_pages(front, first, last);
        law_near_images_are_kept(front, first, last, page);
        assert(painted =~= front.push(painted.last()));
        lemma_pushed_contains(front, painted.last(), page);
        lemma_pushed_contains(kept, painted.last(), page);
    }
}

proof fn lemma_pushed_contains(s: Seq<usize>, a: usize, page: usize)
    ensures
        s.push(a).contains(page) <==> s.contains(page) || a == page,
{
    assert(s.push(a)[s.len() as int] == a);
    if s.contains(page) {
        let i = choose|i: int| 0 <= i < s.len() && s[i] == page;
        assert(s.push(a)[i] == page);
    }
    if s.push(a).contains(page) {
        let i = choose|i: int| 0 <= i < s.push(a).len() && s.push(a)[i] == page;
        if i < s.len() {
            assert(s[i] == page);
        }
    }
}

/// A document that was opened is shown from its start, at its own size and
/// without a search, an image or a chosen entry of the one before. What was
/// left keeps its page, and the page that this one was left at is to be
/// restored.
pub proof fn law_opened_document_starts_afresh(
    m: ModelView,
    path: Seq<u8>,
    pages: usize,
    entries: Seq<EntryView>,
    page: usize,
)
    requires
        m.render_gen + 2 <= u64::MAX,
        m.search.generation < u64::MAX,
        m.path is Some,
    ensures
        ({
            let after = model_loaded(m, path, pages, entries, Some(page));
            &&& after.document_open
            &&& after.path == Some(path)
            &&& after.n_pages == pages
            &&& after.entries == entries
            &&& after.zoom.bits == 0x3ff0_0000_0000_0000
            &&& after.last_viewport_width == 0
            &&& after.fit_mode == m.fit_mode
            &&& after.painted.len() == 0
            &&& after.highlighted is None
            &&& after.pinned is None
            &&& after.search.hits.len() == 0
            &&& after.search.query.len() == 0
            &&& !after.search.open
            &&& after.render_gen > m.render_gen
            &&& after.search.generation > m.search.generation
            &&& after.pending_restore == page_of(after.history, path)
            &&& page_of(after.history, m.path->0) == Some(page)
            &&& same_path(m.path->0, path) ==> after.pending_restore == Some(page)
            &&& !same_path(m.path->0, path) && m.history.len() < 50 ==> after.pending_restore
                == page_of(m.history, path)
            &&& after.picker_open == m.picker_open
            &&& after.history_save_pending == m.history_save_pending
        }),
{
    law_set_is_remembered(m.history, m.path->0, page);
    if same_path(m.path->0, path) {
        law_same_path_same_page(visited(m.history, m.path->0, page), m.path->0, path);
    } else if m.history.len() < 50 {
        law_visit_keeps_the_others_with_room(m.history, m.path->0, page, path);
    }
}

/// What is done for a document that was opened: it is shown under the name of
/// its file, with its contents, from the top; the history is written, and the
/// settings too if they can name the file.
pub proof fn law_opened_document_is_shown(m: ModelView, dir: Seq<u8>, name: Seq<u8>)
    requires
        is_file_name(name, SLASH, DOT),
    ensures
        ({
            let path = dir.push(SLASH) + name;
            let effects = loaded_effects(m, path);
            &&& effects.contains(EffectView::SetTitle(shown(name)))
            &&& effects.contains(EffectView::SetContents)
            &&& effects.contains(EffectView::ShowDocument)
            &&& effects.contains(EffectView::BuildPages)
            &&& effects.contains(EffectView::ClearImages)
            &&& effects.contains(EffectView::ScrollToTop)
            &&& effects.contains(EffectView::StartRenderer)
            &&& effects.contains(EffectView::SaveHistory)
            &&& effects.contains(EffectView::ShowSearchBar(false))
            &&& effects.contains(EffectView::SaveConfig) <==> valid_utf8(path)
            &&& effects.last() == EffectView::SendViewportChanged
        }),
{
    let path = dir.push(SLASH) + name;
    let effects = loaded_effects(m, path);
    law_file_name_follows_the_last_separator(dir, name, SLASH, DOT);
    let n = 2 + reset_effects(m.search).len() as int;
    let k: int = if valid_utf8(path) {
        1
    } else {
        0
    };
    assert(effects.len() == n + 3 + k + 4);
    assert(effects[0] == EffectView::SaveHistory);
    assert(effects[1] == EffectView::StartRenderer);
    assert(effects[n] == EffectView::BuildPages);
    assert(effects[n + 1] == EffectView::ClearImages);
    assert(effects[n + 2] == EffectView::ScrollToTop);
    assert(k == 1 ==> effects[n + 3] == EffectView::SaveConfig);
    assert(effects[n + 3 + k] == EffectView::SetTitle(shown(name)));
    assert(effects[n + 4 + k] == EffectView::SetContents);
    assert(effects[n + 5 + k] == EffectView::ShowDocument);
    assert(effects[n + 6 + k] == EffectView::SendViewportChanged);
    assert(effects[n - 2] == EffectView::ShowSearchBar(false));
}

/// The last document is named in the settings once it was opened, and sent at
/// the start; settings that name none send nothing.
pub proof fn law_start_opens_the_last_file(m: ModelView)
    ensures
        m.config.last_file is None ==> start_effects(m).len() == 0,
        m.config.last_file is Some ==> start_effects(m) == seq![
            EffectView::SendOpen(m.config.last_file->0),
        ],
{
}

/// A file that is not the open one is opened, by the path that its URI stands
/// for or else by its own text; the window comes to the front either way. The
/// reader does not change before the document is there.
pub proof fn law_other_file_is_opened(m: ModelView, uri: String, around: Around)
    requires
        !m.document_open || m.path is None || !same_path(
            m.path->0,
            match around.converted {
                Some(path) => path@,
                None => encode_utf8(uri@),
            },
        ),
    ensures
        model_after(m, AppMsg::OpenFile(uri), around) == m,
        model_effects(m, AppMsg::OpenFile(uri), around).contains(EffectView::Present),
        around.converted matches Some(path) ==> model_effects(
            m,
            AppMsg::OpenFile(uri),
            around,
        ).contains(EffectView::OpenDocument(path@)),
        around.converted is None ==> model_effects(m, AppMsg::OpenFile(uri), around).contains(
            EffectView::OpenDocument(encode_utf8(uri@)),
        ),
{
    let effects = model_effects(m, AppMsg::OpenFile(uri), around);
    assert(effects[0] == EffectView::Present);
    assert(effects[1] is OpenDocument);
}

/// Each scrolling message scrolls the way it says, and changes nothing else.
pub proof fn law_scrolling_goes_where_it_says(m: ModelView, around: Around)
    ensures
        model_effects(m, AppMsg::ScrollDown, around) == seq![EffectView::Scroll(ScrollStep::Down)],
        model_effects(m, AppMsg::ScrollUp, around) == seq![EffectView::Scroll(ScrollStep::Up)],
        model_effects(m, AppMsg::ScrollLeft, around) == seq![EffectView::Scroll(ScrollStep::Left)],
        model_effects(m, AppMsg::ScrollRight, around) == seq![
            EffectView::Scroll(ScrollStep::Right),
        ],
        model_effects(m, AppMsg::ScrollTop, around) == seq![EffectView::Scroll(ScrollStep::Start)],
        model_effects(m, AppMsg::ScrollBottom, around) == seq![EffectView::Scroll(ScrollStep::End)],
        model_after(m, AppMsg::ScrollDown, around) == m,
        model_after(m, AppMsg::ScrollUp, around) == m,
        model_after(m, AppMsg::ScrollLeft, around) == m,
        model_after(m, AppMsg::ScrollRight, around) == m,
        model_after(m, AppMsg::ScrollTop, around) == m,
        model_after(m, AppMsg::ScrollBottom, around) == m,
{
}

/// Choosing an entry scrolls to its page, highlights it and gives the keyboard
/// back to the document; an entry that is not there does nothing.
pub proof fn law_chosen_entry_is_scrolled_to(m: ModelView, index: usize, around: Around)
    ensures
        ({
            let after = model_after(m, AppMsg::GoToEntry(index), around);
            let effects = model_effects(m, AppMsg::GoToEntry(index), around);
            &&& index < m.entries.len() ==> {
                let page = m.entries[index as int].page;
                &&& after == (ModelView {
                    highlighted: Some(index),
                    pinned: Some(index),
                    ..m
                })
                &&& effects.contains(EffectView::Highlight(Some(index)))
                &&& page < m.n_pages ==> effects.contains(EffectView::ScrollToPage(page))
                &&& effects.last() == EffectView::FocusContent
            }
            &&& index >= m.entries.len() ==> after == m && effects.len() == 0
        }),
{
    if index < m.entries.len() {
        let page = m.entries[index as int].page;
        let effects = model_effects(m, AppMsg::GoToEntry(index), around);
        assert(effects[0] == EffectView::Highlight(Some(index)));
        if page < m.n_pages {
            assert(effects[1] == EffectView::ScrollToPage(page));
        }
    }
}

/// A typed page number scrolls to the page it names, counted from 1: the first
/// for 0 and the last for a number past the end. Without pages it does nothing,
/// and it never changes the reader.
pub proof fn law_typed_number_scrolls_to_its_page(m: ModelView, number: u32, around: Around)
    ensures
        model_after(m, AppMsg::GoToPage(number), around) == m,
        m.n_pages == 0 ==> model_effects(m, AppMsg::GoToPage(number), around).len() == 0,
        m.n_pages > 0 ==> model_effects(m, AppMsg::GoToPage(number), around) == seq![
            EffectView::ScrollToPage(
                if number == 0 {
                    0
                } else if number > m.n_pages {
                    (m.n_pages - 1) as usize
                } else {
                    (number - 1) as usize
                },
            ),
        ],
{
}

/// One step of zoom by hand takes the zoom that was worked out, but no more
/// than four times and no less than a quarter of the size; every page is
/// resized and drawn anew. Without a document nothing happens.
pub proof fn law_zoom_steps(m: ModelView, around: Around)
    requires
        m.render_gen < u64::MAX,
        !around.zoomed.is_nan(),
    ensures
        ({
            let nearest = model_after(m, AppMsg::ZoomIn, around);
            let farthest = model_after(m, AppMsg::ZoomOut, around);
            let most = Double { bits: 0x4010_0000_0000_0000 };
            let least = Double { bits: 0x3fd0_0000_0000_0000 };
            &&& !m.document_open ==> {
                &&& nearest == m
                &&& farthest == m
                &&& model_effects(m, AppMsg::ZoomIn, around).len() == 0
                &&& model_effects(m, AppMsg::ZoomOut, around).len() == 0
            }
            &&& m.document_open ==> {
                &&& nearest.zoom == (if around.zoomed.le(most) {
                    around.zoomed
                } else {
                    most
                })
                &&& farthest.zoom == (if least.le(around.zoomed) {
                    around.zoomed
                } else {
                    least
                })
                &&& zoomed_by_hand(m, nearest)
                &&& zoomed_by_hand(m, farthest)
                &&& redraws_all(model_effects(m, AppMsg::ZoomIn, around))
                &&& redraws_all(model_effects(m, AppMsg::ZoomOut, around))
                &&& model_effects(m, AppMsg::ZoomIn, around).contains(EffectView::SaveConfig)
                &&& model_effects(m, AppMsg::ZoomOut, around).contains(EffectView::SaveConfig)
            }
        }),
{
    if m.document_open {
        let nearer = model_effects(m, AppMsg::ZoomIn, around);
        let farther = model_effects(m, AppMsg::ZoomOut, around);
        assert(nearer[0] == EffectView::SaveConfig);
        assert(nearer[1] == EffectView::ResizePages);
        assert(nearer[2] == EffectView::ClearImages);
        assert(farther[0] == EffectView::SaveConfig);
        assert(farther[1] == EffectView::ResizePages);
        assert(farther[2] == EffectView::ClearImages);
    }
}

/// Whether `after` is `m` with a zoom set by hand: no image is left, fitting
/// is over, and nothing else changed.
pub open spec fn zoomed_by_hand(m: ModelView, after: ModelView) -> bool {
    &&& after.painted.len() == 0
    &&& after.render_gen == m.render_gen + 1
    &&& !after.fit_mode
    &&& !after.config.fit_width
    &&& after == (ModelView {
        zoom: after.zoom,
        render_gen: after.render_gen,
        painted: after.painted,
        fit_mode: false,
        config: ConfigView { fit_width: false, ..m.config },
        ..m
    })
}

/// Whether all pages are resized and their images dropped.
pub open spec fn redraws_all(effects: Seq<EffectView>) -> bool {
    effects.contains(EffectView::ResizePages) && effects.contains(EffectView::ClearImages)
}

/// A document that is fitted to the width follows a change of the width by
/// eight pixels or more, once the view has fifty: it takes the zoom that fills
/// the view, in the range there is. The view settles in any case.
pub proof fn law_fitting_follows_the_width(m: ModelView, around: Around)
    requires
        m.render_gen < u64::MAX,
        !around.fit_zoom.is_nan(),
    ensures
        ({
            let after = model_after(m, AppMsg::ViewportChanged, around);
            let effects = model_effects(m, AppMsg::ViewportChanged, around);
            let follows = m.fit_mode && m.document_open && around.width >= 50 && (around.width
                >= m.last_viewport_width + 8 || around.width <= m.last_viewport_width - 8);
            let most = Double { bits: 0x4010_0000_0000_0000 };
            let least = Double { bits: 0x3fd0_0000_0000_0000 };
            &&& effects.len() > 0
            &&& effects.last() == EffectView::Settle
            &&& !follows ==> after == m && effects.len() == 1
            &&& follows ==> {
                &&& after.zoom == (if around.fit_zoom.lt(least) {
                    least
                } else if most.lt(around.fit_zoom) {
                    most
                } else {
                    around.fit_zoom
                })
                &&& after.last_viewport_width == around.width
                &&& after.painted.len() == 0
                &&& after.render_gen == m.render_gen + 1
                &&& after.fit_mode
                &&& after.config == m.config
                &&& redraws_all(effects)
            }
        }),
{
    let effects = model_effects(m, AppMsg::ViewportChanged, around);
    if effects.len() == 3 {
        assert(effects[0] == EffectView::ResizePages);
        assert(effects[1] == EffectView::ClearImages);
    }
}

/// An image that was asked for is stored as it came, on its own page, and its
/// page counts as painted; an error is reported with the page counted from 1,
/// and paints nothing.
pub proof fn law_wanted_image_is_stored(
    m: ModelView,
    zoom: Double,
    index: usize,
    image: (i32, i32, Vec<u8>),
    error: String,
    around: Around,
)
    requires
        zoom.same(m.zoom),
        index < m.n_pages,
        !m.painted.contains(index),
    ensures
        ({
            let done = AppMsg::PageRendered {
                generation: m.render_gen,
                zoom,
                index,
                result: Ok(image),
            };
            let failed = AppMsg::PageRendered {
                generation: m.render_gen,
                zoom,
                index,
                result: Err(error),
            };
            &&& model_effects(m, done, around) == seq![
                EffectView::StoreImage {
                    index,
                    width: image.0,
                    height: image.1,
                    bytes: image.2@,
                },
            ]
            &&& model_after(m, done, around) == (ModelView { painted: m.painted.push(index), ..m })
            &&& model_effects(m, failed, around).len() == 1
            &&& model_effects(m, failed, around)[0] matches EffectView::ReportPage {
                page,
                error: said,
            } && page == index + 1 && said == error@
            &&& model_after(m, failed, around) == m
        }),
{
}

/// Showing and hiding the sidebar turns it round, now and in the settings, and
/// changes nothing else.
pub proof fn law_sidebar_is_turned_round(m: ModelView, around: Around)
    ensures
        ({
            let after = model_after(m, AppMsg::ToggleSidebar, around);
            let effects = model_effects(m, AppMsg::ToggleSidebar, around);
            &&& after.config.sidebar.collapsed == !around.sidebar_collapsed
            &&& after.config.sidebar.width_fraction == m.config.sidebar.width_fraction
            &&& after == (ModelView {
                config: ConfigView { sidebar: after.config.sidebar, ..m.config },
                ..m
            })
            &&& effects.contains(EffectView::CollapseSidebar(!around.sidebar_collapsed))
            &&& !effects.contains(EffectView::CollapseSidebar(around.sidebar_collapsed))
            &&& effects.contains(EffectView::SaveConfig)
        }),
{
    let effects = model_effects(m, AppMsg::ToggleSidebar, around);
    assert(effects[0] == EffectView::CollapseSidebar(!around.sidebar_collapsed));
    assert(effects[1] == EffectView::SaveConfig);
}

/// The keyboard goes to the highlighted entry of the sidebar, or to the first
/// where none is highlighted; and back to the document.
pub proof fn law_keyboard_goes_to_the_highlighted_entry(m: ModelView, around: Around)
    ensures
        m.highlighted is Some ==> model_effects(m, AppMsg::FocusSidebar, around) == seq![
            EffectView::FocusEntry(m.highlighted),
        ],
        m.highlighted is None && m.entries.len() > 0 ==> model_effects(
            m,
            AppMsg::FocusSidebar,
            around,
        ) == seq![EffectView::FocusEntry(Some(0))],
        m.highlighted is None && m.entries.len() == 0 ==> model_effects(
            m,
            AppMsg::FocusSidebar,
            around,
        ) == seq![EffectView::FocusEntry(None)],
        model_effects(m, AppMsg::FocusPdf, around) == seq![EffectView::FocusContent],
        model_after(m, AppMsg::FocusPdf, around) == m,
{
}

/// The picker opens at the root and in the size of the settings; it is dropped
/// when it has answered, and a path that it answers with is opened.
pub proof fn law_picked_path_is_opened(m: ModelView, path: Option<FilePath>, around: Around)
    ensures
        ({
            let asked = model_effects(m, AppMsg::PickFile, around);
            let after = model_after(m, AppMsg::PickerResult(path), around);
            let answered = model_effects(m, AppMsg::PickerResult(path), around);
            &&& !m.picker_open ==> asked.len() == 1 && asked[0] == (EffectView::OpenPicker {
                root: expanded(m.config.picker.root@, home_text(around.home)),
                width: m.config.picker.width,
                height: m.config.picker.height,
            })
            &&& model_after(m, AppMsg::PickFile, around) == (ModelView { picker_open: true, ..m })
            &&& after == (ModelView { picker_open: false, ..m })
            &&& answered.contains(EffectView::DropPicker)
            &&& path matches Some(path) ==> answered.contains(EffectView::SendOpen(shown(path@)))
            &&& path is None ==> answered.len() == 1
        }),
{
    let answered = model_effects(m, AppMsg::PickerResult(path), around);
    assert(answered[0] == EffectView::DropPicker);
    if path is Some {
        assert(answered[1] == EffectView::SendOpen(shown(path->0@)));
    }
}

/// The search bar shows and takes the keyboard when it is opened; when it is
/// closed it hides and gives the keyboard back. Both keep all else of the
/// search.
pub proof fn law_search_bar_opens_and_closes(m: ModelView, around: Around)
    ensures
        ({
            let opened = model_after(m, AppMsg::OpenSearch, around);
            let closed = model_after(m, AppMsg::CloseSearch, around);
            let opening = model_effects(m, AppMsg::OpenSearch, around);
            let closing = model_effects(m, AppMsg::CloseSearch, around);
            &&& opened == (ModelView { search: SearchView { open: true, ..m.search }, ..m })
            &&& closed == (ModelView { search: SearchView { open: false, ..m.search }, ..m })
            &&& opening.contains(EffectView::ShowSearchBar(true))
            &&& opening.contains(EffectView::FocusSearch)
            &&& m.search.open ==> closing.contains(EffectView::ShowSearchBar(false))
                && closing.contains(EffectView::FocusContent)
            &&& !m.search.open ==> closing.len() == 0
        }),
{
    let opening = model_effects(m, AppMsg::OpenSearch, around);
    let closing = model_effects(m, AppMsg::CloseSearch, around);
    assert(opening[0] == EffectView::ShowSearchBar(true));
    assert(opening[1] == EffectView::FocusSearch);
    if m.search.open {
        assert(closing[0] == EffectView::ShowSearchBar(false));
        assert(closing[1] == EffectView::FocusContent);
    }
}

/// Going to the next match makes the one active that follows, and going to the
/// previous one the one before, counted over all pages and round; the view
/// scrolls to the rectangle of the match that is then active.
pub proof fn law_next_and_previous_match(m: ModelView, around: Around, page: int, index: int)
    requires
        m.search.hits.len() <= m.n_pages,
        0 <= page < m.search.hits.len(),
        0 <= index < m.search.hits[page].len(),
        m.search.current == Some((page, index)),
        m.search.flat == matches_before(m.search.hits, page) + index,
        m.search.total == matches_before(m.search.hits, m.search.hits.len() as int),
        m.search.flat < m.search.total,
    ensures
        ({
            let hits = m.search.hits;
            let next = model_after(m, AppMsg::SearchNext, around).search.current;
            let previous = model_after(m, AppMsg::SearchPrev, around).search.current;
            let here = matches_before(hits, page) + index;
            &&& next is Some
            &&& previous is Some
            &&& matches_before(hits, (next->0).0) + (next->0).1 == (here + 1) % m.search.total
            &&& matches_before(hits, (previous->0).0) + (previous->0).1 == (here - 1)
                % m.search.total
            &&& model_effects(m, AppMsg::SearchNext, around).contains(
                EffectView::ScrollToMatch {
                    page: (next->0).0 as usize,
                    rect: hits[(next->0).0][(next->0).1],
                },
            )
            &&& model_effects(m, AppMsg::SearchPrev, around).contains(
                EffectView::ScrollToMatch {
                    page: (previous->0).0 as usize,
                    rect: hits[(previous->0).0][(previous->0).1],
                },
            )
        }),
{
    law_step_shows_the_match_it_makes_active(m.search, 1, m.n_pages as int, page, index);
    law_step_shows_the_match_it_makes_active(m.search, -1, m.n_pages as int, page, index);
}

/// The answer to the search that ran last is taken in, and its matches are
/// those of the pages they came for; a query is handed on as it was typed, and
/// runs on the open document.
pub proof fn law_search_messages_reach_the_search(
    m: ModelView,
    text: String,
    hits: Vec<Vec<MatchRect>>,
    around: Around,
)
    requires
        m.search.generation < u64::MAX,
        hits@.len() <= m.n_pages,
    ensures
        ({
            let found = AppMsg::SearchResults { generation: m.search.generation, hits };
            &&& model_after(m, found, around).search.hits == hit_lists(hits@)
            &&& model_after(m, found, around).search.total == matches_before(
                hit_lists(hits@),
                hits@.len() as int,
            )
            &&& model_after(m, AppMsg::SearchQuery(text), around).search.query == text@
            &&& (m.path is Some && m.n_pages > 0) ==> model_effects(
                m,
                AppMsg::SearchRun(text),
                around,
            ) == seq![
                EffectView::Scan {
                    path: m.path->0,
                    n_pages: m.n_pages,
                    query: text@,
                    generation: model_after(
                        m,
                        AppMsg::SearchRun(text),
                        around,
                    ).search.generation,
                },
            ]
            &&& (m.path is Some && m.n_pages > 0) ==> model_after(
                m,
                AppMsg::SearchRun(text),
                around,
            ).search.generation > m.search.generation
        }),
{
    if m.n_pages > 0 {
        law_found_matches_start_at_the_first(m.search, hit_lists(hits@), m.n_pages as int, 0);
    } else {
        assert(hit_lists(hits@) =~= Seq::empty());
        assert(matches_before(hit_lists(hits@), 0) == 0);
    }
}

/// Messages about the search change nothing but the search.
pub proof fn law_searching_changes_the_search_alone(m: ModelView, msg: AppMsg, around: Around)
    requires
        msg is OpenSearch || msg is CloseSearch || msg is SearchQuery || msg is SearchRun
            || msg is SearchResults || msg is SearchNext || msg is SearchPrev,
    ensures
        ({
            let after = model_after(m, msg, around);
            after == (ModelView { search: after.search, ..m })
        }),
{
}

/// Opening a document names it in the settings, if its path is text, and
/// leaves the rest of the settings. With nothing open before, or nothing
/// shown, the history stays as it is.
pub proof fn law_opening_names_the_document(
    m: ModelView,
    path: Seq<u8>,
    pages: usize,
    entries: Seq<EntryView>,
    page: Option<usize>,
)
    ensures
        ({
            let after = model_loaded(m, path, pages, entries, page);
            &&& valid_utf8(path) ==> after.config == (ConfigView {
                last_file: Some(decode_utf8(path)),
                ..m.config
            })
            &&& !valid_utf8(path) ==> after.config == m.config
            &&& m.path is None || page is None ==> after.history == m.history
                && after.pending_restore == page_of(m.history, path)
        }),
{
}

} // verus!
