//! Searching a document: the query, the matches and the one that is active.
use vstd::prelude::*;

use crate::app::hit_lists;
use crate::effect::{effect_views, emit, emit_all, nothing, Effect, EffectView};
use crate::paths::FilePath;
use crate::pdf::MatchRect;
use crate::text::{
    chars_of, cuts_core, decimal, decimal_of, is_blank, law_trim_takes_the_core, trim, trimmed,
};

verus! {

/// How long typing must rest before a document is searched, in milliseconds.
pub const SEARCH_DEBOUNCE_MS: u64 = 250;

/// The search bar and what was found last.
#[derive(Debug)]
pub struct Search {
    /// Whether the search bar shows.
    pub open: bool,
    pub query: String,
    /// Counts the searches, so that a late answer is recognised.
    pub generation: u64,
    /// Whether a search is scheduled.
    pub scheduled: bool,
    /// How many matches there are.
    pub total: usize,
    /// Which of all matches is the active one.
    pub flat: usize,
    /// The matches of each page.
    pub hits: Vec<Vec<MatchRect>>,
    /// The page of the active match, and its place among those of the page.
    pub current: Option<(usize, usize)>,
}

/// The search, with its query as characters and its matches as sequences.
pub struct SearchView {
    pub open: bool,
    pub query: Seq<char>,
    pub generation: u64,
    pub scheduled: bool,
    pub total: int,
    pub flat: int,
    pub hits: Seq<Seq<MatchRect>>,
    pub current: Option<(int, int)>,
}

/// A place among the matches.
pub open spec fn place_view(place: Option<(usize, usize)>) -> Option<(int, int)> {
    match place {
        Some((page, index)) => Some((page as int, index as int)),
        None => None,
    }
}

impl View for Search {
    type V = SearchView;

    open spec fn view(&self) -> SearchView {
        SearchView {
            open: self.open,
            query: self.query@,
            generation: self.generation,
            scheduled: self.scheduled,
            total: self.total as int,
            flat: self.flat as int,
            hits: hit_lists(self.hits@),
            current: place_view(self.current),
        }
    }
}

/// How many matches there are on all pages.
pub open spec fn hit_count(hits: Seq<Seq<MatchRect>>) -> nat
    decreases hits.len(),
{
    if hits.len() == 0 {
        0
    } else {
        hits[0].len() + hit_count(hits.skip(1))
    }
}

/// The `n`-th match over all pages: its page, and its place on the page.
pub open spec fn nth(hits: Seq<Seq<MatchRect>>, n: int) -> Option<(int, int)>
    decreases hits.len(),
{
    if hits.len() == 0 {
        None
    } else if n < hits[0].len() {
        Some((0, n))
    } else {
        match nth(hits.skip(1), n - hits[0].len()) {
            Some((page, index)) => Some((page + 1, index)),
            None => None,
        }
    }
}

/// The matches on the first `n_pages` pages.
pub open spec fn in_document(hits: Seq<Seq<MatchRect>>, n_pages: int) -> Seq<Seq<MatchRect>> {
    if n_pages < hits.len() {
        hits.take(n_pages)
    } else {
        hits
    }
}

/// The pages with matches.
pub open spec fn hit_pages(hits: Seq<Seq<MatchRect>>) -> Seq<usize>
    decreases hits.len(),
{
    if hits.len() == 0 {
        Seq::empty()
    } else if hits.last().len() > 0 {
        hit_pages(hits.drop_last()).push((hits.len() - 1) as usize)
    } else {
        hit_pages(hits.drop_last())
    }
}

/// The label for the active match, counted from 1.
pub open spec fn match_label(number: int, total: int) -> Seq<char> {
    decimal(number as nat) + "/"@ + decimal(total as nat)
}

fn label_of(number: usize, total: usize) -> (r: String)
    ensures
        r@ == match_label(number as int, total as int),
{
    let mut label = decimal_of(number);
    label.append("/");
    label.append(decimal_of(total).as_str());
    label
}

/// How many matches there are on all pages, if the number can be held.
pub fn total_hits(hits: &Vec<Vec<MatchRect>>) -> (r: Option<usize>)
    ensures
        match r {
            Some(n) => n == hit_count(hit_lists(hits@)),
            None => hit_count(hit_lists(hits@)) > usize::MAX,
        },
{
    let mut total: usize = 0;
    let mut i: usize = 0;
    let ghost all = hit_lists(hits@);
    assert(all.skip(0) =~= all);
    while i < hits.len()
        invariant
            i <= hits@.len(),
            all == hit_lists(hits@),
            hit_count(all) == total + hit_count(all.skip(i as int)),
        decreases hits@.len() - i,
    {
        assert(all.skip(i as int)[0] == hits@[i as int]@);
        assert(all.skip(i as int).skip(1) =~= all.skip(i + 1));
        match total.checked_add(hits[i].len()) {
            Some(sum) => {
                total = sum;
            },
            None => {
                return None;
            },
        }
        i += 1;
    }
    Some(total)
}

fn pages_of(hits: &Vec<Vec<MatchRect>>, n_pages: usize) -> (r: Vec<usize>)
    ensures
        r@ == hit_pages(in_document(hit_lists(hits@), n_pages as int)),
{
    let mut out: Vec<usize> = Vec::new();
    let mut i: usize = 0;
    let ghost all = hit_lists(hits@);
    assert(all.take(0) =~= Seq::empty());
    while i < hits.len() && i < n_pages
        invariant
            i <= hits@.len(),
            i <= n_pages,
            all == hit_lists(hits@),
            out@ == hit_pages(all.take(i as int)),
        decreases hits@.len() - i,
    {
        assert(all.take(i + 1).drop_last() =~= all.take(i as int));
        assert(all.take(i + 1).last() == hits@[i as int]@);
        if hits[i].len() > 0 {
            out.push(i);
        }
        i += 1;
    }
    assert(all.take(i as int) =~= in_document(all, n_pages as int));
    out
}

impl Search {
    /// No search.
    pub fn new() -> (r: Search)
        ensures
            r@ == (SearchView {
                open: false,
                query: Seq::empty(),
                generation: 0,
                scheduled: false,
                total: 0,
                flat: 0,
                hits: Seq::empty(),
                current: None,
            }),
    {
        let r = Search {
            open: false,
            query: String::new(),
            generation: 0,
            scheduled: false,
            total: 0,
            flat: 0,
            hits: Vec::new(),
            current: None,
        };
        assert(r.query@ =~= Seq::empty());
        assert(hit_lists(r.hits@) =~= Seq::empty());
        r
    }

    /// The `n`-th match over the first `n_pages` pages, in ascending order.
    pub fn nth_match(&self, n: usize, n_pages: usize) -> (r: Option<(usize, usize)>)
        ensures
            place_view(r) == nth(in_document(self@.hits, n_pages as int), n as int),
    {
        let mut left: usize = n;
        let mut page: usize = 0;
        let ghost all = in_document(self@.hits, n_pages as int);
        assert(all.skip(0) =~= all);
        while page < self.hits.len() && page < n_pages
            invariant
                page <= self.hits@.len(),
                page <= n_pages,
                all == in_document(self@.hits, n_pages as int),
                all.len() <= self.hits@.len(),
                nth(all, n as int) == (match nth(all.skip(page as int), left as int) {
                    Some((p, i)) => Some((p + page, i)),
                    None => None,
                }),
            decreases self.hits@.len() - page,
        {
            let ghost rest = all.skip(page as int);
            assert(rest[0] == self.hits@[page as int]@);
            assert(rest.skip(1) =~= all.skip(page + 1));
            let count: usize = self.hits[page].len();
            if left < count {
                return Some((page, left));
            }
            left -= count;
            page += 1;
        }
        None
    }
}

proof fn lemma_nth(hits: Seq<Seq<MatchRect>>, n: int)
    requires
        0 <= n,
    ensures
        match nth(hits, n) {
            Some((page, index)) => 0 <= page < hits.len() && 0 <= index < hits[page].len(),
            None => n >= hit_count(hits),
        },
        n < hit_count(hits) ==> nth(hits, n) is Some,
        n >= hit_count(hits) ==> nth(hits, n) is None,
    decreases hits.len(),
{
    if hits.len() > 0 && n >= hits[0].len() {
        lemma_nth(hits.skip(1), n - hits[0].len());
        match nth(hits.skip(1), n - hits[0].len()) {
            Some((page, index)) => {
                assert(hits.skip(1)[page] == hits[page + 1]);
            },
            None => {},
        }
    }
}

/// The search after a new document was opened: nothing is left of it.
pub open spec fn search_reset(s: SearchView) -> SearchView {
    SearchView {
        open: false,
        query: Seq::empty(),
        generation: (s.generation + 1) as u64,
        scheduled: false,
        total: 0,
        flat: 0,
        hits: Seq::empty(),
        current: None,
    }
}

/// What is done when a scheduled search is given up.
pub open spec fn cancelled(s: SearchView) -> Seq<EffectView> {
    if s.scheduled {
        seq![EffectView::CancelSearch]
    } else {
        Seq::empty()
    }
}

/// What is done when the search is reset.
pub open spec fn reset_effects(s: SearchView) -> Seq<EffectView> {
    cancelled(s).push(EffectView::ShowSearchBar(false)).push(
        EffectView::SetMatchLabel(Seq::empty()),
    )
}

/// The search without matches.
pub open spec fn search_cleared(s: SearchView) -> SearchView {
    SearchView { total: 0, flat: 0, hits: Seq::empty(), current: None, ..s }
}

/// What is done when the matches are dropped.
pub open spec fn cleared_effects(s: SearchView, n_pages: int) -> Seq<EffectView> {
    seq![
        EffectView::SetMatchLabel(Seq::empty()),
        EffectView::Redraw(hit_pages(in_document(s.hits, n_pages))),
    ]
}

/// The search after the query has become `text`: a blank one drops the
/// matches, any other is searched for once typing has rested.
pub open spec fn search_queried(s: SearchView, text: Seq<char>) -> SearchView {
    let asked = SearchView { query: text, scheduled: trim(text).len() > 0, ..s };
    if trim(text).len() == 0 {
        search_cleared(asked)
    } else {
        asked
    }
}

/// What is done when the query becomes `text`.
pub open spec fn queried_effects(s: SearchView, text: Seq<char>, n_pages: int) -> Seq<EffectView> {
    cancelled(s) + (if trim(text).len() == 0 {
        cleared_effects(s, n_pages)
    } else {
        seq![EffectView::ScheduleSearch(text)]
    })
}

/// The search after it was asked to run: it does if there is a document with
/// pages.
pub open spec fn search_run(s: SearchView, path: Option<Seq<u8>>, n_pages: int) -> SearchView {
    if path is None || n_pages == 0 {
        SearchView { scheduled: false, ..s }
    } else {
        SearchView { scheduled: false, generation: (s.generation + 1) as u64, ..s }
    }
}

/// What is done when the search is asked to run.
pub open spec fn run_effects(
    s: SearchView,
    path: Option<Seq<u8>>,
    n_pages: usize,
    query: Seq<char>,
) -> Seq<EffectView> {
    if path is None || n_pages == 0 {
        Seq::empty()
    } else {
        seq![
            EffectView::Scan {
                path: path->0,
                n_pages,
                query,
                generation: (s.generation + 1) as u64,
            },
        ]
    }
}

/// The search after `hits` were found: the first of them is active.
pub open spec fn search_found(s: SearchView, hits: Seq<Seq<MatchRect>>, n_pages: int) -> SearchView {
    SearchView {
        total: hit_count(hits) as int,
        flat: 0,
        hits,
        current: nth(in_document(hits, n_pages), 0),
        ..s
    }
}

/// What scrolls to a match.
pub open spec fn shows_match(hits: Seq<Seq<MatchRect>>, place: Option<(int, int)>) -> Seq<
    EffectView,
> {
    match place {
        Some((page, index)) => seq![
            EffectView::ScrollToMatch { page: page as usize, rect: hits[page][index] },
        ],
        None => Seq::empty(),
    }
}

/// What is done when `hits` were found.
pub open spec fn found_effects(
    s: SearchView,
    hits: Seq<Seq<MatchRect>>,
    n_pages: int,
) -> Seq<EffectView> {
    seq![
        EffectView::SetMatchLabel(
            if hit_count(hits) > 0 {
                match_label(1, hit_count(hits) as int)
            } else {
                "No matches"@
            },
        ),
        EffectView::Redraw(hit_pages(in_document(s.hits, n_pages))),
        EffectView::Redraw(hit_pages(in_document(hits, n_pages))),
    ] + shows_match(hits, nth(in_document(hits, n_pages), 0))
}

/// Which match a move by `delta` makes active: the count goes round.
pub open spec fn next_flat(s: SearchView, delta: int) -> int {
    (s.flat + delta) % s.total
}

/// The match that a move by `delta` makes active, if there is one.
pub open spec fn next_match(s: SearchView, delta: int, n_pages: int) -> Option<(int, int)> {
    if s.total == 0 {
        None
    } else {
        nth(in_document(s.hits, n_pages), next_flat(s, delta))
    }
}

/// The search after a move of the active match by `delta`.
pub open spec fn search_stepped(s: SearchView, delta: int, n_pages: int) -> SearchView {
    match next_match(s, delta, n_pages) {
        Some(place) => SearchView { flat: next_flat(s, delta), current: Some(place), ..s },
        None => s,
    }
}

/// What is done when the active match moves by `delta`: the pages of the old
/// and the new one are drawn again.
pub open spec fn stepped_effects(s: SearchView, delta: int, n_pages: int) -> Seq<EffectView> {
    match next_match(s, delta, n_pages) {
        Some((page, index)) => seq![
            EffectView::SetMatchLabel(match_label(next_flat(s, delta) + 1, s.total)),
            EffectView::Redraw(
                match s.current {
                    Some((old_page, _)) => if old_page < n_pages {
                        seq![old_page as usize, page as usize]
                    } else {
                        seq![page as usize]
                    },
                    None => seq![page as usize],
                },
            ),
            EffectView::ScrollToMatch { page: page as usize, rect: s.hits[page][index] },
        ],
        None => Seq::empty(),
    }
}

/// Whether a text is blank.
fn is_blank_text(text: &str) -> (r: bool)
    ensures
        r == (trim(text@).len() == 0),
{
    let chars = chars_of(text);
    trimmed(chars.as_slice()).len() == 0
}

impl Search {
    /// The matches to draw on a page, and which of them is the active one.
    pub fn highlights(&self, page: usize) -> (r: Vec<(MatchRect, bool)>)
        ensures
            page >= self@.hits.len() ==> r@.len() == 0,
            page < self@.hits.len() ==> {
                &&& r@.len() == self@.hits[page as int].len()
                &&& forall|i: int|
                    0 <= i < r@.len() ==> (#[trigger] r@[i]).0 == self@.hits[page as int][i]
                        && r@[i].1 == (self@.current == Some((page as int, i)))
            },
    {
        let mut out: Vec<(MatchRect, bool)> = Vec::new();
        if page >= self.hits.len() {
            return out;
        }
        let rects = &self.hits[page];
        assert(self@.hits[page as int] == rects@);
        let mut i: usize = 0;
        while i < rects.len()
            invariant
                i <= rects@.len(),
                out@.len() == i,
                forall|j: int|
                    0 <= j < i ==> (#[trigger] out@[j]).0 == rects@[j] && out@[j].1 == (
                    self@.current == Some((page as int, j))),
            decreases rects@.len() - i,
        {
            let active = match self.current {
                Some((p, k)) => p == page && k == i,
                None => false,
            };
            out.push((rects[i], active));
            i += 1;
        }
        out
    }

    fn cancel(&mut self) -> (r: Vec<Effect>)
        ensures
            effect_views(r@) == cancelled(old(self)@),
            final(self)@ == (SearchView { scheduled: false, ..old(self)@ }),
    {
        let mut effects = nothing();
        if self.scheduled {
            emit(&mut effects, Effect::CancelSearch);
            assert(effect_views(effects@) =~= seq![EffectView::CancelSearch]);
        }
        self.scheduled = false;
        effects
    }

    /// Forget everything about the search.
    pub fn reset_search(&mut self) -> (r: Vec<Effect>)
        requires
            old(self).generation < u64::MAX,
        ensures
            final(self)@ == search_reset(old(self)@),
            effect_views(r@) == reset_effects(old(self)@),
    {
        let mut effects = self.cancel();
        self.open = false;
        self.query = String::new();
        self.generation = self.generation + 1;
        self.total = 0;
        self.flat = 0;
        self.hits = Vec::new();
        self.current = None;
        emit(&mut effects, Effect::ShowSearchBar(false));
        let label = String::new();
        assert(label@ =~= Seq::empty());
        emit(&mut effects, Effect::SetMatchLabel(label));
        assert(self.query@ =~= Seq::empty());
        assert(hit_lists(self.hits@) =~= Seq::empty());
        effects
    }

    /// Drop the matches.
    pub fn clear_matches(&mut self, n_pages: usize) -> (r: Vec<Effect>)
        ensures
            final(self)@ == search_cleared(old(self)@),
            effect_views(r@) == cleared_effects(old(self)@, n_pages as int),
    {
        let pages = pages_of(&self.hits, n_pages);
        self.hits = Vec::new();
        self.current = None;
        self.total = 0;
        self.flat = 0;
        assert(hit_lists(self.hits@) =~= Seq::empty());
        let mut effects = nothing();
        let label = String::new();
        assert(label@ =~= Seq::empty());
        emit(&mut effects, Effect::SetMatchLabel(label));
        emit(&mut effects, Effect::Redraw(pages));
        assert(effect_views(effects@) =~= cleared_effects(old(self)@, n_pages as int));
        effects
    }

    /// Take in a new query.
    pub fn set_query(&mut self, text: String, n_pages: usize) -> (r: Vec<Effect>)
        ensures
            final(self)@ == search_queried(old(self)@, text@),
            effect_views(r@) == queried_effects(old(self)@, text@, n_pages as int),
    {
        let mut effects = self.cancel();
        let blank = is_blank_text(text.as_str());
        let ghost asked = text@;
        self.query = text.clone();
        if blank {
            let more = self.clear_matches(n_pages);
            emit_all(&mut effects, more);
        } else {
            self.scheduled = true;
            emit(&mut effects, Effect::ScheduleSearch(text));
            assert(effect_views(effects@) =~= cancelled(old(self)@) + seq![
                EffectView::ScheduleSearch(asked),
            ]);
        }
        effects
    }

    /// Search the document.
    pub fn run(&mut self, query: String, path: &Option<FilePath>, n_pages: usize) -> (r: Vec<Effect>)
        requires
            old(self).generation < u64::MAX,
        ensures
            final(self)@ == search_run(
                old(self)@,
                match path {
                    Some(path) => Some(path@),
                    None => None,
                },
                n_pages as int,
            ),
            effect_views(r@) == run_effects(
                old(self)@,
                match path {
                    Some(path) => Some(path@),
                    None => None,
                },
                n_pages,
                query@,
            ),
    {
        self.scheduled = false;
        let mut effects = nothing();
        let path = match path {
            Some(path) => path.clone(),
            None => {
                return effects;
            },
        };
        if n_pages == 0 {
            return effects;
        }
        self.generation = self.generation + 1;
        let ghost (p, q) = (path@, query@);
        emit(&mut effects, Effect::Scan { path, n_pages, query, generation: self.generation });
        assert(effect_views(effects@) =~= seq![
            EffectView::Scan { path: p, n_pages, query: q, generation: self.generation },
        ]);
        effects
    }

    /// Take in what was found, make the first match active and go to it.
    pub fn apply_search_results(&mut self, hits: Vec<Vec<MatchRect>>, n_pages: usize) -> (r: Vec<
        Effect,
    >)
        requires
            hit_count(hit_lists(hits@)) <= usize::MAX,
        ensures
            final(self)@ == search_found(old(self)@, hit_lists(hits@), n_pages as int),
            effect_views(r@) == found_effects(old(self)@, hit_lists(hits@), n_pages as int),
    {
        let previous = pages_of(&self.hits, n_pages);
        let total: usize = match total_hits(&hits) {
            Some(total) => total,
            None => 0,
        };
        let fresh = pages_of(&hits, n_pages);
        let ghost all = hit_lists(hits@);
        self.hits = hits;
        self.total = total;
        self.flat = 0;
        self.current = self.nth_match(0, n_pages);
        let mut effects = nothing();
        if total > 0 {
            emit(&mut effects, Effect::SetMatchLabel(label_of(1, total)));
        } else {
            emit(&mut effects, Effect::SetMatchLabel("No matches".to_owned()));
        }
        emit(&mut effects, Effect::Redraw(previous));
        emit(&mut effects, Effect::Redraw(fresh));
        proof {
            lemma_nth(in_document(all, n_pages as int), 0);
        }
        match self.current {
            Some((page, index)) => {
                assert(in_document(all, n_pages as int)[page as int] == self.hits@[page as int]@);
                let rect = self.hits[page][index];
                emit(&mut effects, Effect::ScrollToMatch { page, rect });
            },
            None => {},
        }
        assert(effect_views(effects@) =~= found_effects(old(self)@, all, n_pages as int));
        effects
    }

    /// Move the active match by `delta`, round and round, and go to it.
    pub fn step_match(&mut self, delta: isize, n_pages: usize) -> (r: Vec<Effect>)
        ensures
            final(self)@ == search_stepped(old(self)@, delta as int, n_pages as int),
            effect_views(r@) == stepped_effects(old(self)@, delta as int, n_pages as int),
    {
        let mut effects = nothing();
        if self.total == 0 {
            return effects;
        }
        let moved: i128 = self.flat as i128 + delta as i128;
        let next: usize = match moved.checked_rem_euclid(self.total as i128) {
            Some(next) => next as usize,
            None => 0,
        };
        assert(next == next_flat(self@, delta as int));
        let (page, index) = match self.nth_match(next, n_pages) {
            Some(place) => place,
            None => {
                return effects;
            },
        };
        let ghost all = in_document(self@.hits, n_pages as int);
        proof {
            lemma_nth(all, next as int);
        }
        assert(all[page as int] == self.hits@[page as int]@);
        let mut pages: Vec<usize> = Vec::new();
        match self.current {
            Some((old_page, _)) => {
                if old_page < n_pages {
                    pages.push(old_page);
                }
            },
            None => {},
        }
        pages.push(page);
        assert(pages@ =~= (match old(self)@.current {
            Some((old_page, _)) => if old_page < n_pages {
                seq![old_page as usize, page]
            } else {
                seq![page]
            },
            None => seq![page],
        }));
        let rect = self.hits[page][index];
        self.current = Some((page, index));
        self.flat = next;
        emit(&mut effects, Effect::SetMatchLabel(label_of(next + 1, self.total)));
        emit(&mut effects, Effect::Redraw(pages));
        emit(&mut effects, Effect::ScrollToMatch { page, rect });
        assert(effect_views(effects@) =~= stepped_effects(
            old(self)@,
            delta as int,
            n_pages as int,
        ));
        effects
    }
}

/// Whether the count, the active match and the matches agree, and the matches
/// lie in the document.
pub open spec fn settled(s: SearchView, n_pages: int) -> bool {
    &&& s.hits.len() <= n_pages
    &&& s.total == hit_count(s.hits)
    &&& s.total > 0 ==> 0 <= s.flat < s.total
    &&& s.total == 0 ==> s.flat == 0
    &&& s.current == nth(s.hits, s.flat)
}

/// Whatever happens to the search, the count, the active match and the matches
/// agree. The matches that come in must lie in the document; a reset search
/// agrees with any document.
pub proof fn law_search_stays_settled(
    s: SearchView,
    n_pages: int,
    text: Seq<char>,
    path: Option<Seq<u8>>,
    hits: Seq<Seq<MatchRect>>,
    delta: int,
    new_pages: int,
)
    requires
        settled(s, n_pages),
        hits.len() <= n_pages,
        0 <= new_pages,
    ensures
        settled(search_reset(s), new_pages),
        settled(search_cleared(s), n_pages),
        settled(search_queried(s, text), n_pages),
        settled(search_run(s, path, n_pages), n_pages),
        settled(search_found(s, hits, n_pages), n_pages),
        settled(search_stepped(s, delta, n_pages), n_pages),
{
    let none = Seq::<Seq<MatchRect>>::empty();
    assert(hit_count(none) == 0);
    assert(nth(none, 0) is None);
    if s.total > 0 {
        lemma_nth(s.hits, next_flat(s, delta));
    }
}

/// Going to the previous match undoes going to the next one, and the other way
/// round.
pub proof fn law_previous_undoes_next(s: SearchView, n_pages: int)
    requires
        settled(s, n_pages),
    ensures
        search_stepped(search_stepped(s, 1, n_pages), -1, n_pages) == s,
        search_stepped(search_stepped(s, -1, n_pages), 1, n_pages) == s,
{
    if s.total > 0 {
        lemma_step(s, 1, n_pages);
        lemma_step(s, -1, n_pages);
        lemma_step(search_stepped(s, 1, n_pages), -1, n_pages);
        lemma_step(search_stepped(s, -1, n_pages), 1, n_pages);
        lemma_round(s.flat, 1, -1, s.total);
        lemma_round(s.flat, -1, 1, s.total);
    }
}

proof fn lemma_round(flat: int, a: int, b: int, total: int)
    requires
        0 <= flat < total,
    ensures
        ((flat + a) % total + b) % total == (flat + a + b) % total,
        flat % total == flat,
{
    vstd::arithmetic::div_mod::lemma_add_mod_noop(flat + a, b, total);
    vstd::arithmetic::div_mod::lemma_add_mod_noop((flat + a) % total, b, total);
    vstd::arithmetic::div_mod::lemma_mod_twice(flat + a, total);
    vstd::arithmetic::div_mod::lemma_small_mod(flat as nat, total as nat);
}

proof fn lemma_step(s: SearchView, delta: int, n_pages: int)
    requires
        settled(s, n_pages),
        s.total > 0,
    ensures
        search_stepped(s, delta, n_pages) == (SearchView {
            flat: (s.flat + delta) % s.total,
            current: nth(s.hits, (s.flat + delta) % s.total),
            ..s
        }),
        settled(search_stepped(s, delta, n_pages), n_pages),
{
    lemma_nth(s.hits, next_flat(s, delta));
}

/// The search after going to the next match `n` times.
pub open spec fn stepped_times(s: SearchView, n: nat, n_pages: int) -> SearchView
    decreases n,
{
    if n == 0 {
        s
    } else {
        search_stepped(stepped_times(s, (n - 1) as nat, n_pages), 1, n_pages)
    }
}

/// Going to the next match `n` times makes the one active that is `n` further
/// on, counted round; as often as there are matches, it is the same again.
pub proof fn law_matches_go_round(s: SearchView, n: nat, n_pages: int)
    requires
        settled(s, n_pages),
        s.total > 0,
    ensures
        stepped_times(s, n, n_pages).flat == (s.flat + n) % s.total,
        stepped_times(s, n, n_pages) == (SearchView {
            flat: (s.flat + n) % s.total,
            current: nth(s.hits, (s.flat + n) % s.total),
            ..s
        }),
        n == s.total ==> stepped_times(s, n, n_pages) == s,
    decreases n,
{
    if n == 0 {
        lemma_round(s.flat, 0, 0, s.total);
    } else {
        law_matches_go_round(s, (n - 1) as nat, n_pages);
        lemma_settled_times(s, (n - 1) as nat, n_pages);
        lemma_step(stepped_times(s, (n - 1) as nat, n_pages), 1, n_pages);
        lemma_round(s.flat, n - 1, 1, s.total);
    }
    if n == s.total {
        lemma_round(s.flat, 0, 0, s.total);
        vstd::arithmetic::div_mod::lemma_mod_add_multiples_vanish(s.flat, s.total);
    }
}

proof fn lemma_settled_times(s: SearchView, n: nat, n_pages: int)
    requires
        settled(s, n_pages),
        s.total > 0,
    ensures
        settled(stepped_times(s, n, n_pages), n_pages),
        stepped_times(s, n, n_pages).total == s.total,
    decreases n,
{
    if n > 0 {
        lemma_settled_times(s, (n - 1) as nat, n_pages);
        lemma_step(stepped_times(s, (n - 1) as nat, n_pages), 1, n_pages);
    }
}

/// Matches are visited page by page, and in their order on each page.
pub proof fn law_matches_follow_the_pages(hits: Seq<Seq<MatchRect>>, a: int, b: int)
    requires
        0 <= a < b < hit_count(hits),
    ensures
        nth(hits, a) is Some,
        nth(hits, b) is Some,
        (nth(hits, a)->0).0 < (nth(hits, b)->0).0 || ((nth(hits, a)->0).0 == (nth(hits, b)->0).0 && (
        nth(hits, a)->0).1 < (nth(hits, b)->0).1),
    decreases hits.len(),
{
    lemma_nth(hits, a);
    lemma_nth(hits, b);
    if hits.len() > 0 && a >= hits[0].len() {
        law_matches_follow_the_pages(hits.skip(1), a - hits[0].len(), b - hits[0].len());
    } else if hits.len() > 0 && b >= hits[0].len() {
        lemma_nth(hits.skip(1), b - hits[0].len());
    }
}

/// Hiding the search bar keeps the matches, so that the next and the previous
/// one can still be visited.
pub proof fn law_hidden_search_keeps_matches(s: SearchView, delta: int, n_pages: int)
    ensures
        next_match(SearchView { open: false, ..s }, delta, n_pages) == next_match(
            s,
            delta,
            n_pages,
        ),
{
}

/// Dropping the matches and having none is the same: no step leads anywhere.
pub proof fn law_cleared_search_has_no_match(s: SearchView, delta: int, n_pages: int)
    ensures
        next_match(search_cleared(s), delta, n_pages) is None,
        stepped_effects(search_cleared(s), delta, n_pages).len() == 0,
{
}

/// How many matches there are on the pages before `page`.
pub open spec fn matches_before(hits: Seq<Seq<MatchRect>>, page: int) -> nat
    decreases page,
{
    if page <= 0 {
        0
    } else {
        matches_before(hits, page - 1) + hits[page - 1].len()
    }
}

/// Whether `page` is among those that are drawn again.
pub open spec fn redraws(effects: Seq<EffectView>, page: int) -> bool {
    exists|k: int|
        0 <= k < effects.len() && (#[trigger] effects[k]) is Redraw
            && effects[k]->Redraw_0.contains(page as usize)
}

proof fn lemma_matches_before(hits: Seq<Seq<MatchRect>>, page: int)
    requires
        0 <= page < hits.len(),
    ensures
        matches_before(hits, page + 1) == hits[0].len() + matches_before(hits.skip(1), page),
    decreases page,
{
    if page > 0 {
        lemma_matches_before(hits, page - 1);
    } else {
        assert(matches_before(hits, 0) == 0);
        assert(matches_before(hits.skip(1), 0) == 0);
    }
}

proof fn lemma_hit_count(hits: Seq<Seq<MatchRect>>)
    ensures
        hit_count(hits) == matches_before(hits, hits.len() as int),
    decreases hits.len(),
{
    if hits.len() > 0 {
        lemma_hit_count(hits.skip(1));
        lemma_matches_before(hits, hits.len() - 1);
    }
}

proof fn lemma_nth_place(hits: Seq<Seq<MatchRect>>, n: int)
    requires
        0 <= n,
    ensures
        nth(hits, n) matches Some((page, index)) ==> matches_before(hits, page) + index == n,
    decreases hits.len(),
{
    if hits.len() > 0 && n >= hits[0].len() {
        lemma_nth_place(hits.skip(1), n - hits[0].len());
        lemma_nth(hits.skip(1), n - hits[0].len());
        match nth(hits.skip(1), n - hits[0].len()) {
            Some((page, index)) => {
                lemma_matches_before(hits, page);
            },
            None => {},
        }
    }
}

/// A page is drawn again for its matches if and only if it has one.
pub proof fn law_pages_with_matches_are_drawn(hits: Seq<Seq<MatchRect>>, page: int)
    requires
        hits.len() <= usize::MAX,
        0 <= page <= usize::MAX,
    ensures
        hit_pages(hits).contains(page as usize) <==> page < hits.len() && hits[page].len() > 0,
    decreases hits.len(),
{
    if hits.len() > 0 {
        let front = hits.drop_last();
        let before = hit_pages(front);
        let last = (hits.len() - 1) as usize;
        law_pages_with_matches_are_drawn(front, page);
        if hits.last().len() > 0 {
            assert(hit_pages(hits) == before.push(last));
            assert(before.push(last)[before.len() as int] == last);
            if before.contains(page as usize) {
                let k = choose|k: int| 0 <= k < before.len() && before[k] == page as usize;
                assert(before.push(last)[k] == page as usize);
            }
            if before.push(last).contains(page as usize) && page != last {
                let k = choose|k: int|
                    0 <= k < before.push(last).len() && before.push(last)[k] == page as usize;
                assert(before[k] == page as usize);
            }
        }
        if page < front.len() {
            assert(front[page] == hits[page]);
        }
    }
}

/// A step makes the match active that is as many further on as was asked for,
/// counted over all pages and round. The view scrolls to the rectangle of that
/// very match on its own page and nowhere else; the label gives its number and
/// how many there are; its page and the page of the match before are drawn
/// again. Nothing else changes.
pub proof fn law_step_shows_the_match_it_makes_active(
    s: SearchView,
    delta: int,
    n_pages: int,
    page: int,
    index: int,
)
    requires
        s.hits.len() <= n_pages <= usize::MAX,
        0 <= page < s.hits.len(),
        0 <= index < s.hits[page].len(),
        s.current == Some((page, index)),
        s.flat == matches_before(s.hits, page) + index,
        s.total == matches_before(s.hits, s.hits.len() as int),
        s.flat < s.total,
    ensures
        ({
            let t = search_stepped(s, delta, n_pages);
            let effects = stepped_effects(s, delta, n_pages);
            let (p, i) = t.current->0;
            let place = (matches_before(s.hits, page) + index + delta) % s.total;
            &&& t.current is Some
            &&& 0 <= p < s.hits.len()
            &&& 0 <= i < s.hits[p].len()
            &&& matches_before(s.hits, p) + i == place
            &&& t == (SearchView { flat: place, current: Some((p, i)), ..s })
            &&& effects.contains(
                EffectView::ScrollToMatch { page: p as usize, rect: s.hits[p][i] },
            )
            &&& forall|k: int|
                0 <= k < effects.len() && (#[trigger] effects[k]) is ScrollToMatch ==> effects[k]
                    == (EffectView::ScrollToMatch { page: p as usize, rect: s.hits[p][i] })
            &&& effects.contains(
                EffectView::SetMatchLabel(
                    decimal((place + 1) as nat) + "/"@ + decimal(s.total as nat),
                ),
            )
            &&& redraws(effects, p)
            &&& redraws(effects, page)
        }),
{
    let place = (s.flat + delta) % s.total;
    let effects = stepped_effects(s, delta, n_pages);
    lemma_hit_count(s.hits);
    lemma_nth(s.hits, place);
    lemma_nth_place(s.hits, place);
    assert(in_document(s.hits, n_pages) == s.hits);
    let (p, i) = nth(s.hits, place)->0;
    assert(effects[2] == (EffectView::ScrollToMatch { page: p as usize, rect: s.hits[p][i] }));
    assert(effects[0] == EffectView::SetMatchLabel(match_label(place + 1, s.total)));
    let pages = seq![page as usize, p as usize];
    assert(effects[1] == EffectView::Redraw(pages));
    assert(pages[0] == page as usize);
    assert(pages[1] == p as usize);
}

/// When matches were found, the first of them over all pages is active and the
/// view scrolls to its rectangle; the label counts it, or says that there is
/// none. The pages of the old and of the new matches are drawn again. The
/// query and the rest of the search stay.
pub proof fn law_found_matches_start_at_the_first(
    s: SearchView,
    hits: Seq<Seq<MatchRect>>,
    n_pages: int,
    shown: int,
)
    requires
        hits.len() <= n_pages <= usize::MAX,
        0 <= shown < n_pages,
    ensures
        ({
            let t = search_found(s, hits, n_pages);
            let effects = found_effects(s, hits, n_pages);
            let total = matches_before(hits, hits.len() as int);
            let (p, i) = t.current->0;
            &&& t == (SearchView {
                hits,
                total: total as int,
                flat: 0,
                current: t.current,
                ..s
            })
            &&& total == 0 ==> {
                &&& t.current is None
                &&& effects.contains(EffectView::SetMatchLabel("No matches"@))
                &&& forall|k: int|
                    0 <= k < effects.len() ==> !((#[trigger] effects[k]) is ScrollToMatch)
            }
            &&& total > 0 ==> {
                &&& t.current is Some
                &&& 0 <= p < hits.len()
                &&& matches_before(hits, p) == 0
                &&& hits[p].len() > 0
                &&& i == 0
                &&& effects.contains(
                    EffectView::ScrollToMatch { page: p as usize, rect: hits[p][0] },
                )
                &&& effects.contains(
                    EffectView::SetMatchLabel(decimal(1) + "/"@ + decimal(total)),
                )
            }
            &&& shown < hits.len() && hits[shown].len() > 0 ==> redraws(effects, shown)
            &&& shown < s.hits.len() && s.hits[shown].len() > 0 ==> redraws(effects, shown)
        }),
{
    let effects = found_effects(s, hits, n_pages);
    lemma_hit_count(hits);
    lemma_nth(hits, 0);
    lemma_nth_place(hits, 0);
    assert(in_document(hits, n_pages) == hits);
    let old_hits = in_document(s.hits, n_pages);
    law_pages_with_matches_are_drawn(hits, shown);
    law_pages_with_matches_are_drawn(old_hits, shown);
    assert(effects[1] == EffectView::Redraw(hit_pages(old_hits)));
    assert(effects[2] == EffectView::Redraw(hit_pages(hits)));
    assert(effects[0] is SetMatchLabel);
    assert(effects.contains(effects[0]));
    match nth(hits, 0) {
        Some((p, i)) => {
            assert(effects[3] == (EffectView::ScrollToMatch {
                page: p as usize,
                rect: hits[p][i],
            }));
        },
        None => {},
    }
}

/// Dropping the matches leaves none: no match is active, the label is emptied
/// and every page that had a match is drawn again.
pub proof fn law_dropped_matches_leave_the_pages(s: SearchView, n_pages: int, shown: int)
    requires
        0 <= shown < n_pages <= usize::MAX,
    ensures
        search_cleared(s).total == 0,
        search_cleared(s).current is None,
        search_cleared(s).hits.len() == 0,
        search_cleared(s).query == s.query,
        search_cleared(s).open == s.open,
        search_cleared(s).generation == s.generation,
        cleared_effects(s, n_pages).contains(EffectView::SetMatchLabel(Seq::empty())),
        shown < s.hits.len() && s.hits[shown].len() > 0 ==> redraws(
            cleared_effects(s, n_pages),
            shown,
        ),
{
    let effects = cleared_effects(s, n_pages);
    let old_hits = in_document(s.hits, n_pages);
    law_pages_with_matches_are_drawn(old_hits, shown);
    assert(effects[0] == EffectView::SetMatchLabel(Seq::empty()));
    assert(effects[1] == EffectView::Redraw(hit_pages(old_hits)));
}

/// A query with something to look for is kept and scheduled as it was typed,
/// and the matches stay until then; a blank one is never searched for and
/// drops the matches. A search that was scheduled before is given up.
pub proof fn law_query_is_searched_as_typed(s: SearchView, text: Seq<char>, n_pages: int)
    ensures
        ({
            let t = search_queried(s, text);
            let effects = queried_effects(s, text, n_pages);
            let asks = exists|i: int| 0 <= i < text.len() && !is_blank(#[trigger] text[i]);
            &&& t.query == text
            &&& t.scheduled == asks
            &&& t.open == s.open
            &&& t.generation == s.generation
            &&& s.scheduled ==> effects.len() > 0 && effects[0] is CancelSearch
            &&& asks ==> {
                &&& t.hits == s.hits
                &&& t.current == s.current
                &&& t.flat == s.flat
                &&& t.total == s.total
                &&& effects.last() == EffectView::ScheduleSearch(text)
            }
            &&& !asks ==> {
                &&& t.hits.len() == 0
                &&& t.current is None
                &&& t.total == 0
                &&& effects.contains(EffectView::SetMatchLabel(Seq::empty()))
                &&& !effects.contains(EffectView::ScheduleSearch(text))
            }
        }),
{
    law_trim_takes_the_core(text);
    let effects = queried_effects(s, text, n_pages);
    if trim(text).len() > 0 {
        let (a, b) = choose|a: int, b: int| #[trigger] cuts_core(trim(text), text, a, b);
        assert(!is_blank(text[a]));
    } else {
        assert(effects[cancelled(s).len() as int] == EffectView::SetMatchLabel(Seq::empty()));
    }
}

/// A search that runs looks for the query in the open document, and its answer
/// carries the number that the search counts from then on. Without a document,
/// or without pages, nothing runs.
pub proof fn law_search_runs_on_the_open_document(
    s: SearchView,
    path: Option<Seq<u8>>,
    n_pages: usize,
    query: Seq<char>,
)
    requires
        s.generation < u64::MAX,
    ensures
        ({
            let t = search_run(s, path, n_pages as int);
            let effects = run_effects(s, path, n_pages, query);
            &&& !t.scheduled
            &&& t.hits == s.hits
            &&& t.current == s.current
            &&& t.query == s.query
            &&& path is Some && n_pages > 0 ==> {
                &&& t.generation == s.generation + 1
                &&& effects.len() == 1
                &&& effects[0] == (EffectView::Scan {
                    path: path->0,
                    n_pages,
                    query,
                    generation: t.generation,
                })
            }
            &&& path is None || n_pages == 0 ==> {
                &&& t.generation == s.generation
                &&& effects.len() == 0
            }
        }),
{
}

/// After a reset nothing is left of the search: no query, no match, no label
/// and no bar, and answers to what was asked before come too late.
pub proof fn law_reset_search_is_gone(s: SearchView)
    requires
        s.generation < u64::MAX,
    ensures
        search_reset(s).generation > s.generation,
        search_reset(s).query.len() == 0,
        search_reset(s).hits.len() == 0,
        search_reset(s).total == 0,
        search_reset(s).current is None,
        !search_reset(s).open,
        !search_reset(s).scheduled,
        s.scheduled ==> reset_effects(s).contains(EffectView::CancelSearch),
        reset_effects(s).contains(EffectView::ShowSearchBar(false)),
        reset_effects(s).contains(EffectView::SetMatchLabel(Seq::empty())),
{
    let effects = reset_effects(s);
    let n = cancelled(s).len() as int;
    assert(effects[n] == EffectView::ShowSearchBar(false));
    assert(effects[n + 1] == EffectView::SetMatchLabel(Seq::empty()));
    if s.scheduled {
        assert(effects[0] == EffectView::CancelSearch);
    }
}

/// Matches past the end of the document are never made active.
pub proof fn law_no_match_past_the_document(
    s: SearchView,
    hits: Seq<Seq<MatchRect>>,
    delta: int,
    n_pages: int,
)
    requires
        0 <= n_pages,
        0 <= s.total,
        s.current matches Some((page, _)) ==> page < n_pages,
    ensures
        search_found(s, hits, n_pages).current matches Some((page, _)) ==> 0 <= page < n_pages,
        search_stepped(s, delta, n_pages).current matches Some((page, _)) ==> page < n_pages,
{
    lemma_nth(in_document(hits, n_pages), 0);
    if s.total > 0 {
        lemma_nth(in_document(s.hits, n_pages), next_flat(s, delta));
    }
}

/// Only pages of the document are drawn again when matches change.
pub proof fn law_only_pages_of_the_document_are_drawn(
    hits: Seq<Seq<MatchRect>>,
    n_pages: int,
    page: int,
)
    requires
        0 <= n_pages <= usize::MAX,
        hits.len() <= usize::MAX,
        0 <= page <= usize::MAX,
    ensures
        hit_pages(in_document(hits, n_pages)).contains(page as usize) <==> page < n_pages && page
            < hits.len() && hits[page].len() > 0,
{
    law_pages_with_matches_are_drawn(in_document(hits, n_pages), page);
}

} // verus!
