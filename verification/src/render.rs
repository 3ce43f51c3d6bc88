//! Which pages are rendered, in which order, and how the workers share them.
use std::collections::HashSet;
use vstd::prelude::*;

use crate::app::AppMsg;
use crate::double::{count_before, lead, lemma_lead, Double};

verus! {

broadcast use vstd::std_specs::hash::group_hash_axioms;

/// The space between two pages in pixels.
pub const PAGE_SPACING: i32 = 12;

/// How many pages past each edge of the view are rendered ahead.
pub const PREFETCH: usize = 2;

/// How many pages further out rendered images are kept.
pub const KEPT_MARGIN: usize = 4;

/// How long a worker that cannot open the document rests, in milliseconds.
pub const BACK_OFF_MS: u64 = 50;

/// One batch of pages to render. `order` lists them from the middle of the
/// view outwards.
#[derive(Debug)]
pub struct RenderJob {
    pub generation: u64,
    pub zoom: Double,
    pub order: Vec<usize>,
}

/// One page of a batch.
#[derive(Debug, Clone, Copy, PartialEq)]
pub struct PageJob {
    pub generation: u64,
    pub zoom: Double,
    pub index: usize,
}

/// What a worker that asks for a page is told.
#[derive(Debug, Clone, Copy, PartialEq)]
pub enum Claim {
    /// No more pages will come.
    Stop,
    /// Nothing to do until the next batch.
    Wait,
    /// Render this page.
    Take(PageJob),
}

/// What the workers share: the current batch and the pages of it that are
/// taken. A new batch replaces the whole of it.
#[derive(Debug)]
pub struct PoolState {
    pub job: Option<RenderJob>,
    pub claimed: HashSet<usize>,
    pub shutdown: bool,
}

/// The first page of `order` that is not taken.
pub open spec fn unclaimed(order: Seq<usize>, claimed: Set<usize>) -> Option<usize>
    decreases order.len(),
{
    if order.len() == 0 {
        None
    } else if !claimed.contains(order[0]) {
        Some(order[0])
    } else {
        unclaimed(order.skip(1), claimed)
    }
}

fn first_unclaimed(order: &Vec<usize>, claimed: &HashSet<usize>) -> (r: Option<usize>)
    ensures
        r == unclaimed(order@, claimed@),
{
    let mut i: usize = 0;
    assert(order@.skip(0) =~= order@);
    while i < order.len()
        invariant
            i <= order@.len(),
            unclaimed(order@, claimed@) == unclaimed(order@.skip(i as int), claimed@),
        decreases order@.len() - i,
    {
        assert(order@.skip(i as int)[0] == order@[i as int]);
        assert(order@.skip(i as int).skip(1) =~= order@.skip(i + 1));
        if !claimed.contains(&order[i]) {
            return Some(order[i]);
        }
        i += 1;
    }
    None
}

impl Default for PoolState {
    fn default() -> (r: PoolState)
        ensures
            r.job is None,
            r.claimed@ == Set::<usize>::empty(),
            !r.shutdown,
    {
        PoolState { job: None, claimed: HashSet::new(), shutdown: false }
    }
}

impl PoolState {
    /// What the next worker that asks is told.
    pub open spec fn next_claim(self) -> Claim {
        if self.shutdown {
            Claim::Stop
        } else {
            match self.job {
                Some(job) => match unclaimed(job.order@, self.claimed@) {
                    Some(index) => Claim::Take(
                        PageJob { generation: job.generation, zoom: job.zoom, index },
                    ),
                    None => Claim::Wait,
                },
                None => Claim::Wait,
            }
        }
    }

    /// Put a new batch in place of the current one.
    pub fn request(&mut self, job: RenderJob)
        ensures
            final(self).job == Some(job),
            final(self).claimed@ == Set::<usize>::empty(),
            final(self).shutdown == old(self).shutdown,
    {
        self.job = Some(job);
        self.claimed.clear();
    }

    /// Send the workers home.
    pub fn stop(&mut self)
        ensures
            final(self).shutdown,
            final(self).job is None,
            final(self).claimed == old(self).claimed,
    {
        self.shutdown = true;
        self.job = None;
    }

    /// Take the next page of the batch.
    pub fn claim(&mut self) -> (r: Claim)
        ensures
            r == old(self).next_claim(),
            final(self).job == old(self).job,
            final(self).shutdown == old(self).shutdown,
            final(self).claimed@ == (match r {
                Claim::Take(page) => old(self).claimed@.insert(page.index),
                _ => old(self).claimed@,
            }),
    {
        if self.shutdown {
            return Claim::Stop;
        }
        let page = match &self.job {
            Some(job) => match first_unclaimed(&job.order, &self.claimed) {
                Some(index) => PageJob { generation: job.generation, zoom: job.zoom, index },
                None => {
                    return Claim::Wait;
                },
            },
            None => {
                return Claim::Wait;
            },
        };
        self.claimed.insert(page.index);
        Claim::Take(page)
    }
}

/// How many workers render: as many as the machine runs at once, but no more
/// than four; two where that is unknown.
pub fn worker_count(parallelism: Option<usize>) -> (r: usize)
    ensures
        r == (match parallelism {
            Some(n) => if n < 1 {
                1
            } else if n > 4 {
                4
            } else {
                n
            },
            None => 2,
        }),
{
    match parallelism {
        Some(n) => if n < 1 {
            1
        } else if n > 4 {
            4
        } else {
            n
        },
        None => 2,
    }
}

/// A worker: whether it holds the document open, and whether it has said that
/// it cannot.
#[derive(Debug, Clone, Copy, PartialEq, Eq, Structural)]
pub struct Worker {
    pub has_document: bool,
    pub warned: bool,
}

/// What a worker does next.
#[derive(Debug, Clone, Copy, PartialEq)]
pub enum WorkerStep {
    Stop,
    Wait,
    /// Open the document first, then render the page.
    Open(PageJob),
    Render(PageJob),
    /// Rest, after a warning if it is the first time.
    BackOff { warn: bool },
}

/// What a worker does with what it was told: without the document, it opens
/// that first.
pub open spec fn worker_step(worker: Worker, claim: Claim) -> WorkerStep {
    match claim {
        Claim::Stop => WorkerStep::Stop,
        Claim::Wait => WorkerStep::Wait,
        Claim::Take(page) => if worker.has_document {
            WorkerStep::Render(page)
        } else {
            WorkerStep::Open(page)
        },
    }
}

/// What a worker does once it has tried to open the document, and the worker
/// after that.
pub open spec fn worker_opened(worker: Worker, page: PageJob, opened: bool) -> (
    WorkerStep,
    Worker,
) {
    if opened {
        (WorkerStep::Render(page), Worker { has_document: true, ..worker })
    } else {
        (WorkerStep::BackOff { warn: !worker.warned }, Worker { warned: true, ..worker })
    }
}

impl Worker {
    /// A worker. The document that the window opened is handed to one of them;
    /// the others open their own.
    pub fn new(has_document: bool) -> (r: Worker)
        ensures
            r == (Worker { has_document, warned: false }),
    {
        Worker { has_document, warned: false }
    }

    /// What the worker does with what it was told.
    pub fn step(&self, claim: Claim) -> (r: WorkerStep)
        ensures
            r == worker_step(*self, claim),
            r == (match claim {
                Claim::Stop => WorkerStep::Stop,
                Claim::Wait => WorkerStep::Wait,
                Claim::Take(page) => if self.has_document {
                    WorkerStep::Render(page)
                } else {
                    WorkerStep::Open(page)
                },
            }),
    {
        match claim {
            Claim::Stop => WorkerStep::Stop,
            Claim::Wait => WorkerStep::Wait,
            Claim::Take(page) => if self.has_document {
                WorkerStep::Render(page)
            } else {
                WorkerStep::Open(page)
            },
        }
    }

    /// What the worker does once it has tried to open the document for `page`.
    pub fn tried_to_open(&mut self, page: PageJob, opened: bool) -> (r: WorkerStep)
        ensures
            (r, *final(self)) == worker_opened(*old(self), page, opened),
            r == (if opened {
                WorkerStep::Render(page)
            } else {
                WorkerStep::BackOff { warn: !old(self).warned }
            }),
            *final(self) == (if opened {
                Worker { has_document: true, ..*old(self) }
            } else {
                Worker { warned: true, ..*old(self) }
            }),
    {
        if opened {
            self.has_document = true;
            return WorkerStep::Render(page);
        }
        let warn = !self.warned;
        self.warned = true;
        WorkerStep::BackOff { warn }
    }
}

/// The message that a rendered page, or the failure to render it, is sent as.
pub fn rendered(page: PageJob, result: Result<(i32, i32, Vec<u8>), String>) -> (r: AppMsg)
    ensures
        r == (AppMsg::PageRendered {
            generation: page.generation,
            zoom: page.zoom,
            index: page.index,
            result,
        }),
{
    AppMsg::PageRendered { generation: page.generation, zoom: page.zoom, index: page.index, result }
}

/// The pages that are rendered for a view: from the first of the two, up to
/// but without the second. `top_edge` is the spacing above the top of the
/// view, `bottom` its lower edge.
pub open spec fn window(starts: Seq<Double>, top_edge: Double, bottom: Double) -> (int, int) {
    let first = lead(starts, top_edge, false) - PREFETCH;
    let last = lead(starts, bottom, false) + PREFETCH;
    (
        if first < 0 {
            0
        } else {
            first
        },
        if last > starts.len() {
            starts.len() as int
        } else {
            last
        },
    )
}

/// The pages that are rendered for a view.
pub fn visible_window(starts: &[Double], top_edge: Double, bottom: Double) -> (r: (usize, usize))
    ensures
        r.0 == window(starts@, top_edge, bottom).0,
        r.1 == window(starts@, top_edge, bottom).1,
        r.1 <= starts@.len(),
{
    let first: usize = count_before(starts, top_edge, false).saturating_sub(PREFETCH);
    let reach: usize = count_before(starts, bottom, false).saturating_add(PREFETCH);
    let last: usize = if reach > starts.len() {
        starts.len()
    } else {
        reach
    };
    (first, last)
}

/// Whether page `a` is rendered before page `b`: it is nearer to `centre`, or
/// as near and above it.
pub open spec fn nearer(a: int, b: int, centre: int) -> bool {
    let da = if a < centre {
        centre - a
    } else {
        a - centre
    };
    let db = if b < centre {
        centre - b
    } else {
        b - centre
    };
    da < db || (da == db && a < b)
}

/// Whether `order` lists the pages of the window that are not painted yet,
/// each once, from the middle outwards.
pub open spec fn is_render_order(
    order: Seq<usize>,
    first: int,
    last: int,
    painted: Seq<usize>,
) -> bool {
    &&& forall|i: int|
        0 <= i < order.len() ==> first <= (#[trigger] order[i]) < last && !painted.contains(
            order[i],
        )
    &&& forall|p: usize|
        first <= p < last && !painted.contains(p) ==> #[trigger] order.contains(p)
    &&& forall|i: int, j: int|
        0 <= i < j < order.len() ==> nearer(
            #[trigger] order[i] as int,
            #[trigger] order[j] as int,
            (first + last) / 2,
        )
}

/// Whether `pages` has `page`.
pub fn has_page(pages: &[usize], page: usize) -> (r: bool)
    ensures
        r == pages@.contains(page),
{
    let mut i: usize = 0;
    while i < pages.len()
        invariant
            i <= pages@.len(),
            forall|j: int| 0 <= j < i ==> pages@[j] != page,
        decreases pages@.len() - i,
    {
        if pages[i] == page {
            return true;
        }
        i += 1;
    }
    false
}

/// The pages of the window that are not painted yet, from the middle outwards.
pub fn render_order(first: usize, last: usize, painted: &[usize]) -> (r: Vec<usize>)
    ensures
        is_render_order(r@, first as int, last as int, painted@),
{
    let mut order: Vec<usize> = Vec::new();
    if first >= last {
        return order;
    }
    let centre: usize = first + (last - first) / 2;
    assert(centre == (first + last) / 2);
    let mut d: usize = 0;
    while d < last - first
        invariant
            first < last,
            first <= centre < last,
            centre == (first + last) / 2,
            d <= last - first,
            forall|i: int|
                0 <= i < order@.len() ==> first <= (#[trigger] order@[i]) < last && centre - d
                    < order@[i] < centre + d && !painted@.contains(order@[i]),
            forall|p: usize|
                first <= p < last && centre - d < p < centre + d && !painted@.contains(p)
                    ==> #[trigger] order@.contains(p),
            forall|i: int, j: int|
                0 <= i < j < order@.len() ==> nearer(
                    #[trigger] order@[i] as int,
                    #[trigger] order@[j] as int,
                    centre as int,
                ),
        decreases last - first - d,
    {
        let ghost before = order@;
        if d <= centre - first {
            let above: usize = centre - d;
            if !has_page(painted, above) {
                order.push(above);
            }
        }
        let ghost middle = order@;
        assert forall|p: usize| before.contains(p) implies #[trigger] middle.contains(p) by {
            let k = choose|k: int| 0 <= k < before.len() && before[k] == p;
            assert(middle[k] == p);
        }
        if d > 0 && d < last - centre {
            let below: usize = centre + d;
            if !has_page(painted, below) {
                order.push(below);
            }
        }
        proof {
            let after = order@;
            assert forall|p: usize| middle.contains(p) implies #[trigger] after.contains(p) by {
                let k = choose|k: int| 0 <= k < middle.len() && middle[k] == p;
                assert(after[k] == p);
            }
            assert forall|p: usize|
                first <= p < last && centre - (d + 1) < p < centre + (d + 1) && !painted@.contains(
                    p,
                ) implies #[trigger] after.contains(p) by {
                if centre - d < p < centre + d {
                    assert(before.contains(p));
                } else if p == centre - d {
                    assert(middle[middle.len() - 1] == p);
                    assert(middle.contains(p));
                } else {
                    assert(after[after.len() - 1] == p);
                }
            }
        }
        d += 1;
    }
    assert forall|p: usize|
        first <= p < last && !painted@.contains(p) implies #[trigger] order@.contains(p) by {
        assert(centre - d < p < centre + d);
    }
    order
}

/// Whether the image of a page is kept: the page is no more than four pages
/// outside the window.
pub open spec fn is_kept(page: int, first: int, last: int) -> bool {
    page + KEPT_MARGIN >= first && page <= last + KEPT_MARGIN
}

/// The painted pages whose images are kept.
pub open spec fn kept_pages(painted: Seq<usize>, first: int, last: int) -> Seq<usize>
    decreases painted.len(),
{
    if painted.len() == 0 {
        Seq::empty()
    } else if is_kept(painted.last() as int, first, last) {
        kept_pages(painted.drop_last(), first, last).push(painted.last())
    } else {
        kept_pages(painted.drop_last(), first, last)
    }
}

/// The painted pages whose images are kept.
pub fn retain_pages(painted: &[usize], first: usize, last: usize) -> (r: Vec<usize>)
    ensures
        r@ == kept_pages(painted@, first as int, last as int),
{
    let mut out: Vec<usize> = Vec::new();
    let mut i: usize = 0;
    assert(painted@.take(0) =~= Seq::empty());
    while i < painted.len()
        invariant
            i <= painted@.len(),
            out@ == kept_pages(painted@.take(i as int), first as int, last as int),
        decreases painted@.len() - i,
    {
        assert(painted@.take(i + 1).drop_last() =~= painted@.take(i as int));
        let page: usize = painted[i];
        if page.saturating_add(KEPT_MARGIN) >= first && page <= last.saturating_add(KEPT_MARGIN) {
            out.push(page);
        }
        i += 1;
    }
    assert(painted@.take(i as int) =~= painted@);
    out
}

/// The pages that workers take from a batch, one after the other.
pub open spec fn taken(order: Seq<usize>, claimed: Set<usize>, n: nat) -> Seq<usize>
    decreases n,
{
    if n == 0 {
        Seq::empty()
    } else {
        match unclaimed(order, claimed) {
            Some(index) => seq![index] + taken(order, claimed.insert(index), (n - 1) as nat),
            None => Seq::empty(),
        }
    }
}

proof fn lemma_unclaimed(order: Seq<usize>, claimed: Set<usize>, n: int)
    requires
        0 <= n <= order.len(),
        forall|i: int| 0 <= i < n ==> claimed.contains(#[trigger] order[i]),
        n < order.len() ==> !claimed.contains(order[n]),
    ensures
        unclaimed(order, claimed) == (if n < order.len() {
            Some(order[n])
        } else {
            None
        }),
    decreases order.len(),
{
    if n > 0 {
        assert(claimed.contains(order[0]));
        assert forall|i: int| 0 <= i < n - 1 implies claimed.contains(
            #[trigger] order.skip(1)[i],
        ) by {
            assert(order.skip(1)[i] == order[i + 1]);
        }
        lemma_unclaimed(order.skip(1), claimed, n - 1);
    }
}

/// The pages of a batch are taken in its order, each once: what is taken is
/// what was asked for, until nothing is left.
pub proof fn law_pages_are_taken_in_order(order: Seq<usize>, n: nat)
    requires
        order.no_duplicates(),
    ensures
        taken(order, Set::empty(), n) == order.take(
            if n < order.len() {
                n as int
            } else {
                order.len() as int
            },
        ),
{
    assert(order.take(0).to_set() =~= Set::<usize>::empty());
    lemma_taken(order, 0, n);
    assert(order.skip(0) =~= order);
}

proof fn lemma_taken(order: Seq<usize>, from: int, n: nat)
    requires
        order.no_duplicates(),
        0 <= from <= order.len(),
    ensures
        taken(order, order.take(from).to_set(), n) == order.skip(from).take(
            if n < order.len() - from {
                n as int
            } else {
                order.len() - from
            },
        ),
    decreases n,
{
    let claimed = order.take(from).to_set();
    assert forall|i: int| 0 <= i < from implies claimed.contains(#[trigger] order[i]) by {
        assert(order.take(from)[i] == order[i]);
    }
    if from < order.len() && claimed.contains(order[from]) {
        let k = choose|k: int| 0 <= k < from && order.take(from)[k] == order[from];
        assert(order[k] == order[from]);
    }
    lemma_unclaimed(order, claimed, from);
    if n > 0 && from < order.len() {
        assert(order.take(from + 1) =~= order.take(from).push(order[from]));
        assert(order.take(from + 1).to_set() =~= claimed.insert(order[from])) by {
            assert forall|p: usize| order.take(from + 1).contains(p) <==> claimed.insert(
                order[from],
            ).contains(p) by {
                if order.take(from).contains(p) {
                    let k = choose|k: int| 0 <= k < from && order.take(from)[k] == p;
                    assert(order.take(from + 1)[k] == p);
                }
                if p == order[from] {
                    assert(order.take(from + 1)[from] == p);
                }
            }
        }
        lemma_taken(order, from + 1, (n - 1) as nat);
        let rest = order.skip(from);
        assert(order.skip(from + 1) =~= rest.skip(1));
        let m = if n < order.len() - from {
            n as int
        } else {
            order.len() - from
        };
        assert(seq![order[from]] + rest.skip(1).take(m - 1) =~= rest.take(m));
    } else {
        assert(order.skip(from).take(0) =~= Seq::empty());
    }
}

/// A batch never asks for the same page twice.
pub proof fn law_render_order_has_no_repeats(
    order: Seq<usize>,
    first: int,
    last: int,
    painted: Seq<usize>,
)
    requires
        is_render_order(order, first, last, painted),
    ensures
        order.no_duplicates(),
{
    assert forall|i: int, j: int| 0 <= i < order.len() && 0 <= j < order.len() && i != j implies
        order[i] != order[j] by {
        if i < j {
            assert(nearer(order[i] as int, order[j] as int, (first + last) / 2));
        } else {
            assert(nearer(order[j] as int, order[i] as int, (first + last) / 2));
        }
    }
}

/// Whatever is in the window is rendered or painted already, and what is
/// painted in the window is kept.
pub proof fn law_window_gets_painted(
    order: Seq<usize>,
    first: int,
    last: int,
    painted: Seq<usize>,
    page: usize,
)
    requires
        is_render_order(order, first, last, painted),
        first <= page < last,
    ensures
        order.contains(page) || kept_pages(painted, first, last).contains(page),
{
    if painted.contains(page) {
        lemma_kept(painted, first, last, page);
    }
}

proof fn lemma_kept(painted: Seq<usize>, first: int, last: int, page: usize)
    ensures
        kept_pages(painted, first, last).contains(page) <==> painted.contains(page) && is_kept(
            page as int,
            first,
            last,
        ),
    decreases painted.len(),
{
    if painted.len() > 0 {
        let front = painted.drop_last();
        lemma_kept(front, first, last, page);
        assert(painted =~= front.push(painted.last()));
        let kept = kept_pages(front, first, last);
        if front.contains(page) {
            let k = choose|k: int| 0 <= k < front.len() && front[k] == page;
            assert(painted[k] == page);
        }
        if kept.contains(page) {
            let k = choose|k: int| 0 <= k < kept.len() && kept[k] == page;
            assert(kept.push(painted.last())[k] == page);
        }
        if painted.last() == page {
            assert(painted[painted.len() - 1] == page);
            assert(kept.push(page)[kept.len() as int] == page);
        }
    }
}

/// The pages that a view touches lie in the window: those that start above its
/// lower edge, from the one before the first that starts below its upper edge.
pub proof fn law_window_covers_the_view(
    starts: Seq<Double>,
    top_edge: Double,
    bottom: Double,
    page: int,
)
    requires
        forall|i: int, j: int| 0 <= i < j < starts.len() ==> starts[i].le(starts[j]),
        0 <= page < starts.len(),
        starts[page].lt(bottom),
        page + 1 < starts.len() ==> !starts[page + 1].lt(top_edge),
    ensures
        window(starts, top_edge, bottom).0 <= page < window(starts, top_edge, bottom).1,
{
    lemma_lead(starts, top_edge, false);
    lemma_lead(starts, bottom, false);
    crate::double::law_count_splits_the_pages(starts, top_edge, false);
    crate::double::law_count_splits_the_pages(starts, bottom, false);
    assert(crate::double::starts_before(starts[page], bottom, false));
    if page + 1 < starts.len() {
        assert(!crate::double::starts_before(starts[page + 1], top_edge, false));
    }
}

/// There is one order only in which the pages of a window are rendered.
pub proof fn law_render_order_is_unique(
    a: Seq<usize>,
    b: Seq<usize>,
    first: int,
    last: int,
    painted: Seq<usize>,
)
    requires
        is_render_order(a, first, last, painted),
        is_render_order(b, first, last, painted),
    ensures
        a == b,
{
    assert forall|p: usize| a.contains(p) <==> b.contains(p) by {
        if a.contains(p) {
            let k = choose|k: int| 0 <= k < a.len() && a[k] == p;
            assert(first <= a[k] < last && !painted.contains(a[k]));
        }
        if b.contains(p) {
            let k = choose|k: int| 0 <= k < b.len() && b[k] == p;
            assert(first <= b[k] < last && !painted.contains(b[k]));
        }
    }
    lemma_same_order(a, b, (first + last) / 2);
}

proof fn lemma_same_order(a: Seq<usize>, b: Seq<usize>, centre: int)
    requires
        forall|i: int, j: int|
            0 <= i < j < a.len() ==> nearer(
                #[trigger] a[i] as int,
                #[trigger] a[j] as int,
                centre,
            ),
        forall|i: int, j: int|
            0 <= i < j < b.len() ==> nearer(
                #[trigger] b[i] as int,
                #[trigger] b[j] as int,
                centre,
            ),
        forall|p: usize| a.contains(p) <==> b.contains(p),
    ensures
        a == b,
    decreases a.len(),
{
    if a.len() == 0 {
        if b.len() > 0 {
            assert(b.contains(b[0]));
        }
        assert(a =~= b);
    } else {
        assert(a.contains(a[0]));
        let k = choose|k: int| 0 <= k < b.len() && b[k] == a[0];
        assert(b.contains(b[0]));
        let m = choose|m: int| 0 <= m < a.len() && a[m] == b[0];
        if k > 0 && m > 0 {
            assert(nearer(b[0] as int, b[k] as int, centre));
            assert(nearer(a[0] as int, a[m] as int, centre));
        }
        assert(a[0] == b[0]);
        let x = a.skip(1);
        let y = b.skip(1);
        assert forall|p: usize| x.contains(p) <==> y.contains(p) by {
            if x.contains(p) {
                let i = choose|i: int| 0 <= i < x.len() && x[i] == p;
                assert(a[i + 1] == p);
                assert(nearer(a[0] as int, a[i + 1] as int, centre));
                assert(a.contains(p));
                let j = choose|j: int| 0 <= j < b.len() && b[j] == p;
                assert(j > 0);
                assert(y[j - 1] == p);
            }
            if y.contains(p) {
                let i = choose|i: int| 0 <= i < y.len() && y[i] == p;
                assert(b[i + 1] == p);
                assert(nearer(b[0] as int, b[i + 1] as int, centre));
                assert(b.contains(p));
                let j = choose|j: int| 0 <= j < a.len() && a[j] == p;
                assert(j > 0);
                assert(x[j - 1] == p);
            }
        }
        assert forall|i: int, j: int| 0 <= i < j < x.len() implies nearer(
            #[trigger] x[i] as int,
            #[trigger] x[j] as int,
            centre,
        ) by {
            assert(nearer(a[i + 1] as int, a[j + 1] as int, centre));
        }
        assert forall|i: int, j: int| 0 <= i < j < y.len() implies nearer(
            #[trigger] y[i] as int,
            #[trigger] y[j] as int,
            centre,
        ) by {
            assert(nearer(b[i + 1] as int, b[j + 1] as int, centre));
        }
        lemma_same_order(x, y, centre);
        assert(a =~= seq![a[0]] + x);
        assert(b =~= seq![b[0]] + y);
    }
}

/// The page that is handed out next is the first in the order that no worker
/// has, with the zoom and the state of the document that the batch was asked
/// for with. Workers wait when all are taken, or without a batch, and stop when
/// the pool does.
pub proof fn law_next_page_is_the_first_not_taken(pool: PoolState)
    ensures
        pool.shutdown ==> pool.next_claim() == Claim::Stop,
        !pool.shutdown && pool.job is None ==> pool.next_claim() == Claim::Wait,
        !pool.shutdown && pool.job is Some ==> {
            let job = pool.job->0;
            match pool.next_claim() {
                Claim::Take(page) => {
                    &&& page.generation == job.generation
                    &&& page.zoom == job.zoom
                    &&& !pool.claimed@.contains(page.index)
                    &&& exists|i: int|
                        0 <= i < job.order@.len() && #[trigger] job.order@[i] == page.index
                            && forall|j: int|
                            0 <= j < i ==> pool.claimed@.contains(#[trigger] job.order@[j])
                },
                Claim::Wait => forall|j: int|
                    0 <= j < job.order@.len() ==> pool.claimed@.contains(
                        #[trigger] job.order@[j],
                    ),
                Claim::Stop => false,
            }
        },
{
    if !pool.shutdown && pool.job is Some {
        lemma_first_unclaimed(pool.job->0.order@, pool.claimed@);
    }
}

proof fn lemma_first_unclaimed(order: Seq<usize>, claimed: Set<usize>)
    ensures
        match unclaimed(order, claimed) {
            Some(page) => {
                &&& !claimed.contains(page)
                &&& exists|i: int|
                    0 <= i < order.len() && #[trigger] order[i] == page && forall|j: int|
                        0 <= j < i ==> claimed.contains(#[trigger] order[j])
            },
            None => forall|j: int| 0 <= j < order.len() ==> claimed.contains(#[trigger] order[j]),
        },
    decreases order.len(),
{
    if order.len() > 0 {
        if !claimed.contains(order[0]) {
            assert(order[0] == order[0]);
        } else {
            let rest = order.skip(1);
            lemma_first_unclaimed(rest, claimed);
            match unclaimed(rest, claimed) {
                Some(page) => {
                    let i = choose|i: int|
                        0 <= i < rest.len() && #[trigger] rest[i] == page && forall|j: int|
                            0 <= j < i ==> claimed.contains(#[trigger] rest[j]);
                    assert(order[i + 1] == page);
                    assert forall|j: int| 0 <= j < i + 1 implies claimed.contains(
                        #[trigger] order[j],
                    ) by {
                        if j > 0 {
                            assert(order[j] == rest[j - 1]);
                        }
                    }
                },
                None => {
                    assert forall|j: int| 0 <= j < order.len() implies claimed.contains(
                        #[trigger] order[j],
                    ) by {
                        if j > 0 {
                            assert(order[j] == rest[j - 1]);
                        }
                    }
                },
            }
        }
    }
}

/// The window reaches two pages beyond the view at either end, and no further
/// than the document.
pub proof fn law_window_reaches_two_pages_further(
    starts: Seq<Double>,
    top_edge: Double,
    bottom: Double,
)
    requires
        forall|i: int, j: int| 0 <= i < j < starts.len() ==> starts[i].le(starts[j]),
    ensures
        ({
            let (first, last) = window(starts, top_edge, bottom);
            &&& 0 <= first
            &&& last <= starts.len()
            &&& first > 0 ==> first + 1 < starts.len() && starts[first + 1].lt(top_edge)
            &&& first + 2 < starts.len() ==> !starts[first + 2].lt(top_edge)
            &&& last < starts.len() ==> 2 <= last && !starts[last - 2].lt(bottom)
            &&& 2 < last < starts.len() ==> starts[last - 3].lt(bottom)
        }),
{
    lemma_lead(starts, top_edge, false);
    lemma_lead(starts, bottom, false);
    crate::double::law_count_splits_the_pages(starts, top_edge, false);
    let (first, last) = window(starts, top_edge, bottom);
    let above = crate::double::lead(starts, top_edge, false);
    if first > 0 {
        assert(crate::double::starts_before(starts[above - 1], top_edge, false));
    }
    if first + 2 < starts.len() {
        assert(crate::double::starts_before(starts[first + 2], top_edge, false) ==> first + 2
            < above);
    }
    if 2 < last < starts.len() {
        assert(crate::double::starts_before(starts[last - 3], bottom, false));
    }
}

/// How far page `a` is from page `b`.
pub open spec fn distance(a: int, b: int) -> int {
    if a < b {
        b - a
    } else {
        a - b
    }
}

/// Pages are rendered from the middle of the window outwards, the upper of two
/// that are as far first; every page of the window without an image is, and
/// none but those.
pub proof fn law_rendering_goes_outwards(
    order: Seq<usize>,
    first: int,
    last: int,
    painted: Seq<usize>,
    i: int,
    j: int,
    page: usize,
)
    requires
        is_render_order(order, first, last, painted),
        0 <= i < j < order.len(),
    ensures
        ({
            let middle = (first + last) / 2;
            let (a, b) = (order[i] as int, order[j] as int);
            &&& distance(a, middle) <= distance(b, middle)
            &&& distance(a, middle) == distance(b, middle) ==> a < b
            &&& order.contains(page) <==> first <= page < last && !painted.contains(page)
        }),
{
    assert(nearer(order[i] as int, order[j] as int, (first + last) / 2));
    if order.contains(page) {
        let k = choose|k: int| 0 <= k < order.len() && order[k] == page;
        assert(first <= order[k] < last && !painted.contains(order[k]));
    }
}

/// A worker renders the page it was given, and only with the document at hand;
/// otherwise it opens the document for that page first, and no more than once
/// if that works.
pub proof fn law_worker_opens_before_it_renders(worker: Worker, page: PageJob, later: PageJob)
    ensures
        worker.has_document ==> worker_step(worker, Claim::Take(page)) == WorkerStep::Render(page),
        !worker.has_document ==> worker_step(worker, Claim::Take(page)) == WorkerStep::Open(page),
        worker_opened(worker, page, true).0 == WorkerStep::Render(page),
        worker_step(worker_opened(worker, page, true).1, Claim::Take(later))
            == WorkerStep::Render(later),
        worker_step(worker, Claim::Stop) == WorkerStep::Stop,
        worker_step(worker, Claim::Wait) == WorkerStep::Wait,
{
}

/// A worker that cannot open the document rests and tries again with the next
/// page it is given. It warns the first time and not again.
pub proof fn law_worker_warns_once(worker: Worker, page: PageJob, later: PageJob)
    requires
        !worker.has_document,
    ensures
        ({
            let (did, after) = worker_opened(worker, page, false);
            let (again, _) = worker_opened(after, later, false);
            &&& did == (WorkerStep::BackOff { warn: !worker.warned })
            &&& again == (WorkerStep::BackOff { warn: false })
            &&& worker_step(after, Claim::Take(later)) == WorkerStep::Open(later)
        }),
{
}

} // verus!
