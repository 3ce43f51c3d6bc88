//! What the reader has done on the screen, on disk and in the background.
use vstd::prelude::*;

use crate::double::Double;
use crate::paths::FilePath;
use crate::pdf::MatchRect;
use crate::render::RenderJob;

verus! {

/// A step through the document.
#[derive(Debug, Clone, Copy, PartialEq, Eq, Structural)]
pub enum ScrollStep {
    /// Part of the view down.
    Down,
    /// Part of the view up.
    Up,
    /// A little to the left.
    Left,
    /// A little to the right.
    Right,
    /// To the start of the document.
    Start,
    /// To the end of the document.
    End,
}

/// One thing to be done.
#[derive(Debug)]
pub enum Effect {
    /// Raise the window.
    Present,
    /// Open this document and report what came of it.
    OpenDocument(FilePath),
    /// Write the history to its file.
    SaveHistory,
    /// Write the history to its file in a while.
    ScheduleHistorySave,
    /// Write the settings to their file.
    SaveConfig,
    /// Render the document with new workers from now on.
    StartRenderer,
    /// Put an empty page in the view for each page of the document.
    BuildPages,
    /// Give the pages their height at the current zoom.
    ResizePages,
    /// Forget all page images and draw the pages again.
    ClearImages,
    /// Keep the images of these pages alone.
    KeepImages(Vec<usize>),
    /// Keep this image of a page and draw the page again.
    StoreImage { index: usize, width: i32, height: i32, bytes: Vec<u8> },
    /// Draw these pages again.
    Redraw(Vec<usize>),
    /// Hand this batch to the workers.
    Render(RenderJob),
    /// Go on with the view as it is now.
    Settle,
    /// Record where the view has come to.
    RecordPosition,
    /// Scroll to the very top.
    ScrollToTop,
    ScrollToPage(usize),
    ScrollToMatch { page: usize, rect: MatchRect },
    Scroll(ScrollStep),
    SetTitle(String),
    /// Show a notice in place of a document.
    ShowStatus { title: String, description: String },
    ShowDocument,
    /// Hand the table of contents to the sidebar.
    SetContents,
    /// Highlight this entry in the sidebar.
    Highlight(Option<usize>),
    /// Move the keyboard to this entry of the sidebar.
    FocusEntry(Option<usize>),
    /// Hide the sidebar or show it.
    CollapseSidebar(bool),
    /// Move the keyboard to the document.
    FocusContent,
    OpenPicker { root: String, width: i32, height: i32 },
    /// Let go of the picker.
    DropPicker,
    /// Tell the reader to open a file.
    SendOpen(String),
    /// Tell the reader that the view has changed, once it is idle.
    SendViewportChanged,
    /// Show or hide the search bar.
    ShowSearchBar(bool),
    /// Move the keyboard to the search bar, once the reader is idle.
    FocusSearch,
    SetMatchLabel(String),
    /// Forget the search that was scheduled.
    CancelSearch,
    /// Search for this once typing has rested.
    ScheduleSearch(String),
    /// Search the pages of a document in the background.
    Scan { path: FilePath, n_pages: usize, query: String, generation: u64 },
    /// Report that a page could not be rendered; pages count from 1.
    ReportPage { page: usize, error: String },
}

/// An effect, with its texts, paths and lists as sequences.
pub enum EffectView {
    Present,
    OpenDocument(Seq<u8>),
    SaveHistory,
    ScheduleHistorySave,
    SaveConfig,
    StartRenderer,
    BuildPages,
    ResizePages,
    ClearImages,
    KeepImages(Seq<usize>),
    StoreImage { index: usize, width: i32, height: i32, bytes: Seq<u8> },
    Redraw(Seq<usize>),
    Render { generation: u64, zoom: Double, order: Seq<usize> },
    Settle,
    RecordPosition,
    ScrollToTop,
    ScrollToPage(usize),
    ScrollToMatch { page: usize, rect: MatchRect },
    Scroll(ScrollStep),
    SetTitle(Seq<char>),
    ShowStatus { title: Seq<char>, description: Seq<char> },
    ShowDocument,
    SetContents,
    Highlight(Option<usize>),
    FocusEntry(Option<usize>),
    CollapseSidebar(bool),
    FocusContent,
    OpenPicker { root: Seq<char>, width: i32, height: i32 },
    DropPicker,
    SendOpen(Seq<char>),
    SendViewportChanged,
    ShowSearchBar(bool),
    FocusSearch,
    SetMatchLabel(Seq<char>),
    CancelSearch,
    ScheduleSearch(Seq<char>),
    Scan { path: Seq<u8>, n_pages: usize, query: Seq<char>, generation: u64 },
    ReportPage { page: usize, error: Seq<char> },
}

impl View for Effect {
    type V = EffectView;

    open spec fn view(&self) -> EffectView {
        match *self {
            Effect::Present => EffectView::Present,
            Effect::OpenDocument(path) => EffectView::OpenDocument(path@),
            Effect::SaveHistory => EffectView::SaveHistory,
            Effect::ScheduleHistorySave => EffectView::ScheduleHistorySave,
            Effect::SaveConfig => EffectView::SaveConfig,
            Effect::StartRenderer => EffectView::StartRenderer,
            Effect::BuildPages => EffectView::BuildPages,
            Effect::ResizePages => EffectView::ResizePages,
            Effect::ClearImages => EffectView::ClearImages,
            Effect::KeepImages(pages) => EffectView::KeepImages(pages@),
            Effect::StoreImage { index, width, height, bytes } => EffectView::StoreImage {
                index,
                width,
                height,
                bytes: bytes@,
            },
            Effect::Redraw(pages) => EffectView::Redraw(pages@),
            Effect::Render(job) => EffectView::Render {
                generation: job.generation,
                zoom: job.zoom,
                order: job.order@,
            },
            Effect::Settle => EffectView::Settle,
            Effect::RecordPosition => EffectView::RecordPosition,
            Effect::ScrollToTop => EffectView::ScrollToTop,
            Effect::ScrollToPage(page) => EffectView::ScrollToPage(page),
            Effect::ScrollToMatch { page, rect } => EffectView::ScrollToMatch { page, rect },
            Effect::Scroll(step) => EffectView::Scroll(step),
            Effect::SetTitle(title) => EffectView::SetTitle(title@),
            Effect::ShowStatus { title, description } => EffectView::ShowStatus {
                title: title@,
                description: description@,
            },
            Effect::ShowDocument => EffectView::ShowDocument,
            Effect::SetContents => EffectView::SetContents,
            Effect::Highlight(entry) => EffectView::Highlight(entry),
            Effect::FocusEntry(entry) => EffectView::FocusEntry(entry),
            Effect::CollapseSidebar(collapsed) => EffectView::CollapseSidebar(collapsed),
            Effect::FocusContent => EffectView::FocusContent,
            Effect::OpenPicker { root, width, height } => EffectView::OpenPicker {
                root: root@,
                width,
                height,
            },
            Effect::DropPicker => EffectView::DropPicker,
            Effect::SendOpen(uri) => EffectView::SendOpen(uri@),
            Effect::SendViewportChanged => EffectView::SendViewportChanged,
            Effect::ShowSearchBar(shown) => EffectView::ShowSearchBar(shown),
            Effect::FocusSearch => EffectView::FocusSearch,
            Effect::SetMatchLabel(label) => EffectView::SetMatchLabel(label@),
            Effect::CancelSearch => EffectView::CancelSearch,
            Effect::ScheduleSearch(query) => EffectView::ScheduleSearch(query@),
            Effect::Scan { path, n_pages, query, generation } => EffectView::Scan {
                path: path@,
                n_pages,
                query: query@,
                generation,
            },
            Effect::ReportPage { page, error } => EffectView::ReportPage { page, error: error@ },
        }
    }
}

/// The effects, as views.
pub open spec fn effect_views(effects: Seq<Effect>) -> Seq<EffectView> {
    effects.map_values(|e: Effect| e@)
}

/// Add one effect.
pub fn emit(effects: &mut Vec<Effect>, effect: Effect)
    ensures
        effect_views(final(effects)@) == effect_views(old(effects)@).push(effect@),
{
    let ghost added = effect@;
    effects.push(effect);
    assert(effect_views(effects@) =~= effect_views(old(effects)@).push(added));
}

/// No effects.
pub fn nothing() -> (r: Vec<Effect>)
    ensures
        effect_views(r@) == Seq::<EffectView>::empty(),
{
    let r: Vec<Effect> = Vec::new();
    assert(effect_views(r@) =~= Seq::empty());
    r
}

/// Add the effects of `more`.
pub fn emit_all(effects: &mut Vec<Effect>, more: Vec<Effect>)
    ensures
        effect_views(final(effects)@) == effect_views(old(effects)@) + effect_views(more@),
{
    let mut more = more;
    let ghost added = more@;
    effects.append(&mut more);
    assert(effect_views(effects@) =~= effect_views(old(effects)@) + effect_views(added));
}

} // verus!
