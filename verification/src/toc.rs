//! The sidebar with the table of contents: which rows show, and what the
//! keyboard does with them.
use vstd::prelude::*;

use crate::keys::{Key, ModifierType};
use crate::pdf::TocEntry;
use crate::text::{decimal, decimal_of};

verus! {

/// Whether the entry after `i` is nested in entry `i`.
pub open spec fn is_parent(entries: Seq<TocEntry>, i: int) -> bool {
    0 <= i && i + 1 < entries.len() && entries[i + 1].depth > entries[i].depth
}

/// Whether entry `i` is in the subtree of entry `j`: every entry after `j`, up
/// to `i`, is deeper than `j`.
pub open spec fn in_subtree(entries: Seq<TocEntry>, j: int, i: int) -> bool {
    &&& 0 <= j < i < entries.len()
    &&& forall|m: int| j < m <= i ==> (#[trigger] entries[m]).depth > entries[j].depth
}

/// Whether entry `j` is collapsed.
pub open spec fn is_collapsed(collapsed: Seq<bool>, j: int) -> bool {
    0 <= j < collapsed.len() && collapsed[j]
}

/// Whether entry `i` shows: it is in the subtree of no collapsed entry.
pub open spec fn shows(entries: Seq<TocEntry>, collapsed: Seq<bool>, i: int) -> bool {
    forall|j: int| #[trigger] in_subtree(entries, j, i) ==> !is_collapsed(collapsed, j)
}

/// The entries below `n` that show, in order.
pub open spec fn shown_below(entries: Seq<TocEntry>, collapsed: Seq<bool>, n: int) -> Seq<usize>
    decreases n,
{
    if n <= 0 {
        Seq::empty()
    } else if shows(entries, collapsed, n - 1) {
        shown_below(entries, collapsed, n - 1).push((n - 1) as usize)
    } else {
        shown_below(entries, collapsed, n - 1)
    }
}

/// The entries that show, in order.
pub open spec fn visible(entries: Seq<TocEntry>, collapsed: Seq<bool>) -> Seq<usize> {
    shown_below(entries, collapsed, entries.len() as int)
}

proof fn lemma_subtree_transitive(entries: Seq<TocEntry>, k: int, j: int, i: int)
    requires
        in_subtree(entries, k, j),
        in_subtree(entries, j, i),
    ensures
        in_subtree(entries, k, i),
{
    assert(entries[j].depth > entries[k].depth);
    assert forall|m: int| k < m <= i implies (#[trigger] entries[m]).depth > entries[k].depth by {
        if m > j {
            assert(entries[m].depth > entries[j].depth);
        }
    }
}

/// A hidden entry is in the subtree of a collapsed entry that shows.
proof fn lemma_hidden_by_one_that_shows(
    entries: Seq<TocEntry>,
    collapsed: Seq<bool>,
    j: int,
    i: int,
) -> (top: int)
    requires
        in_subtree(entries, j, i),
        is_collapsed(collapsed, j),
    ensures
        in_subtree(entries, top, i),
        is_collapsed(collapsed, top),
        shows(entries, collapsed, top),
    decreases j,
{
    if shows(entries, collapsed, j) {
        j
    } else {
        let k = choose|k: int| #[trigger]
            in_subtree(entries, k, j) && is_collapsed(collapsed, k);
        lemma_subtree_transitive(entries, k, j, i);
        lemma_hidden_by_one_that_shows(entries, collapsed, k, i)
    }
}

/// Whether the entry has any children.
pub fn has_children(entries: &[TocEntry], index: usize) -> (r: bool)
    requires
        index < entries@.len(),
    ensures
        r == is_parent(entries@, index as int),
        r == exists|i: int| in_subtree(entries@, index as int, i),
{
    let r = entries.len() - index > 1 && entries[index + 1].depth > entries[index].depth;
    proof {
        if r {
            assert(in_subtree(entries@, index as int, index + 1));
        } else {
            assert forall|i: int| !in_subtree(entries@, index as int, i) by {
                if in_subtree(entries@, index as int, i) {
                    assert(entries@[index + 1].depth > entries@[index as int].depth);
                }
            }
        }
    }
    r
}

/// Whether `path` holds the entries that show and that have everything from
/// them up to `n` in their subtree, outermost first.
spec fn is_path(entries: Seq<TocEntry>, collapsed: Seq<bool>, path: Seq<usize>, n: int) -> bool {
    &&& forall|a: int, b: int| 0 <= a < b < path.len() ==> path[a] < path[b]
    &&& forall|a: int|
        0 <= a < path.len() ==> {
            &&& (#[trigger] path[a]) < n
            &&& shows(entries, collapsed, path[a] as int)
            &&& spans(entries, path[a] as int, n)
        }
    &&& forall|j: int|
        0 <= j < n && shows(entries, collapsed, j) && #[trigger] spans(entries, j, n)
            ==> path.contains(j as usize)
}

/// Whether all entries between `j` and `n` are deeper than `j`.
spec fn spans(entries: Seq<TocEntry>, j: int, n: int) -> bool {
    forall|m: int| j < m < n ==> (#[trigger] entries[m]).depth > entries[j].depth
}

/// Entry indices that show given the collapse state: a hidden entry hides its
/// whole subtree; a collapsed entry hides its subtree but shows itself.
pub fn visible_indices(entries: &[TocEntry], collapsed: &[bool]) -> (r: Vec<usize>)
    requires
        forall|j: int| #[trigger]
            is_parent(entries@, j) && shows(entries@, collapsed@, j) ==> j < collapsed@.len(),
    ensures
        r@ == visible(entries@, collapsed@),
{
    // The entries that show and that the next one may be nested in.
    let mut path: Vec<usize> = Vec::new();
    let mut out: Vec<usize> = Vec::new();
    let mut index: usize = 0;
    while index < entries.len()
        invariant
            index <= entries@.len(),
            forall|j: int| #[trigger]
                is_parent(entries@, j) && shows(entries@, collapsed@, j) ==> j < collapsed@.len(),
            is_path(entries@, collapsed@, path@, index as int),
            out@ == shown_below(entries@, collapsed@, index as int),
        decreases entries@.len() - index,
    {
        let depth: usize = entries[index].depth;
        let ghost whole = path@;
        while path.len() > 0 && entries[path[path.len() - 1]].depth >= depth
            invariant
                index < entries@.len(),
                depth == entries@[index as int].depth,
                path@.len() <= whole.len(),
                path@ == whole.take(path@.len() as int),
                is_path(entries@, collapsed@, whole, index as int),
                forall|a: int|
                    path@.len() <= a < whole.len() ==> entries@[(#[trigger] whole[a]) as int].depth
                        >= depth,
            decreases path@.len(),
        {
            path.pop();
            assert(path@ =~= whole.take(path@.len() as int));
        }
        let ghost kept = path@;
        let shown: bool = if path.len() > 0 {
            let top: usize = path[path.len() - 1];
            proof {
                assert(whole[path@.len() - 1] == top);
                assert(spans(entries@, top as int, index as int));
                assert(in_subtree(entries@, top as int, index as int));
                assert(entries@[top + 1].depth > entries@[top as int].depth);
                assert(is_parent(entries@, top as int));
            }
            !collapsed[top]
        } else {
            true
        };
        proof {
            lemma_shown(entries@, collapsed@, whole, kept, index as int);
        }
        assert(shown == shows(entries@, collapsed@, index as int));
        if shown {
            out.push(index);
            path.push(index);
        }
        proof {
            lemma_path_step(entries@, collapsed@, whole, kept, index as int);
            if shown {
                assert(path@ =~= kept.push(index));
            }
        }
        index += 1;
    }
    out
}

/// What is left of the path decides whether entry `n` shows.
proof fn lemma_shown(
    entries: Seq<TocEntry>,
    collapsed: Seq<bool>,
    whole: Seq<usize>,
    kept: Seq<usize>,
    n: int,
)
    requires
        0 <= n < entries.len(),
        n <= usize::MAX,
        is_path(entries, collapsed, whole, n),
        kept.len() <= whole.len(),
        kept == whole.take(kept.len() as int),
        forall|a: int|
            kept.len() <= a < whole.len() ==> entries[(#[trigger] whole[a]) as int].depth
                >= entries[n].depth,
        kept.len() > 0 ==> entries[kept.last() as int].depth < entries[n].depth,
    ensures
        shows(entries, collapsed, n) == (kept.len() == 0 || !is_collapsed(
            collapsed,
            kept.last() as int,
        )),
{
    if kept.len() > 0 {
        let top = kept.last() as int;
        assert(whole[kept.len() - 1] == kept.last());
        assert(spans(entries, top, n));
        assert(in_subtree(entries, top, n));
    }
    if !shows(entries, collapsed, n) {
        let j = choose|j: int| #[trigger]
            in_subtree(entries, j, n) && is_collapsed(collapsed, j);
        let k = lemma_hidden_by_one_that_shows(entries, collapsed, j, n);
        assert(spans(entries, k, n)) by {
            assert forall|m: int| k < m < n implies (#[trigger] entries[m]).depth
                > entries[k].depth by {}
        }
        assert(whole.contains(k as usize));
        let a = choose|a: int| 0 <= a < whole.len() && whole[a] == k as usize;
        assert(entries[n].depth > entries[k].depth);
        assert(a < kept.len());
        let top = kept.last() as int;
        assert(whole[kept.len() - 1] == kept.last());
        assert(k < n <= usize::MAX);
        assert(top < n);
        if a < kept.len() - 1 {
            assert(whole[a] < whole[kept.len() - 1]);
            assert(in_subtree(entries, k, top)) by {
                assert forall|m: int| k < m <= top implies (#[trigger] entries[m]).depth
                    > entries[k].depth by {}
            }
            assert(shows(entries, collapsed, top));
        }
    }
}

/// The path after entry `n`.
proof fn lemma_path_step(
    entries: Seq<TocEntry>,
    collapsed: Seq<bool>,
    whole: Seq<usize>,
    kept: Seq<usize>,
    n: int,
)
    requires
        0 <= n < entries.len(),
        n <= usize::MAX,
        is_path(entries, collapsed, whole, n),
        kept.len() <= whole.len(),
        kept == whole.take(kept.len() as int),
        forall|a: int|
            kept.len() <= a < whole.len() ==> entries[(#[trigger] whole[a]) as int].depth
                >= entries[n].depth,
        kept.len() > 0 ==> entries[kept.last() as int].depth < entries[n].depth,
    ensures
        shows(entries, collapsed, n) ==> is_path(
            entries,
            collapsed,
            kept.push(n as usize),
            n + 1,
        ),
        !shows(entries, collapsed, n) ==> is_path(entries, collapsed, kept, n + 1),
{
    assert forall|a: int| 0 <= a < kept.len() implies {
        &&& (#[trigger] kept[a]) < n
        &&& shows(entries, collapsed, kept[a] as int)
        &&& spans(entries, kept[a] as int, n + 1)
    } by {
        assert(whole[a] == kept[a]);
        assert(spans(entries, whole[a] as int, n));
        if a < kept.len() - 1 {
            assert(whole[a] < whole[kept.len() - 1]);
            assert(kept.last() == whole[kept.len() - 1]);
            assert(entries[kept.last() as int].depth > entries[whole[a] as int].depth);
        }
        assert forall|m: int| kept[a] < m < n + 1 implies (#[trigger] entries[m]).depth
            > entries[kept[a] as int].depth by {}
    }
    assert forall|j: int|
        0 <= j < n && shows(entries, collapsed, j) && #[trigger] spans(
            entries,
            j,
            n + 1,
        ) implies kept.contains(j as usize) by {
        assert(spans(entries, j, n)) by {
            assert forall|m: int| j < m < n implies (#[trigger] entries[m]).depth
                > entries[j].depth by {}
        }
        let a = choose|a: int| 0 <= a < whole.len() && whole[a] == j as usize;
        assert(entries[n].depth > entries[j].depth);
        assert(a < kept.len());
        assert(kept[a] == j as usize);
    }
    if shows(entries, collapsed, n) {
        let next = kept.push(n as usize);
        assert(next[kept.len() as int] == n as usize);
        assert forall|j: int|
            0 <= j < n + 1 && shows(entries, collapsed, j) && #[trigger] spans(
                entries,
                j,
                n + 1,
            ) implies next.contains(j as usize) by {
            if j < n {
                let a = choose|a: int| 0 <= a < kept.len() && kept[a] == j as usize;
                assert(next[a] == j as usize);
            }
        }
    }
}

proof fn lemma_shown_below(entries: Seq<TocEntry>, collapsed: Seq<bool>, n: int)
    requires
        0 <= n <= entries.len() <= usize::MAX,
    ensures
        shown_below(entries, collapsed, n).len() <= n,
        forall|a: int|
            0 <= a < shown_below(entries, collapsed, n).len() ==> {
                let i = #[trigger] shown_below(entries, collapsed, n)[a];
                i < n && shows(entries, collapsed, i as int)
            },
        forall|a: int, b: int|
            0 <= a < b < shown_below(entries, collapsed, n).len() ==> shown_below(
                entries,
                collapsed,
                n,
            )[a] < shown_below(entries, collapsed, n)[b],
        forall|i: int|
            0 <= i < n && shows(entries, collapsed, i) ==> shown_below(
                entries,
                collapsed,
                n,
            ).contains(i as usize),
    decreases n,
{
    if n > 0 {
        lemma_shown_below(entries, collapsed, n - 1);
        let less = shown_below(entries, collapsed, n - 1);
        let list = shown_below(entries, collapsed, n);
        assert forall|i: int| 0 <= i < n && shows(entries, collapsed, i) implies list.contains(
            i as usize,
        ) by {
            if i < n - 1 {
                let a = choose|a: int| 0 <= a < less.len() && less[a] == i as usize;
                assert(list[a] == i as usize);
            } else {
                assert(list[less.len() as int] == i as usize);
            }
        }
    }
}

/// The rows below `n` start the rows below `m`.
proof fn lemma_shown_prefix(entries: Seq<TocEntry>, collapsed: Seq<bool>, n: int, m: int)
    requires
        0 <= n <= m,
    ensures
        shown_below(entries, collapsed, n).len() <= shown_below(entries, collapsed, m).len(),
        forall|a: int|
            0 <= a < shown_below(entries, collapsed, n).len() ==> #[trigger] shown_below(
                entries,
                collapsed,
                n,
            )[a] == shown_below(entries, collapsed, m)[a],
    decreases m,
{
    if n < m {
        lemma_shown_prefix(entries, collapsed, n, m - 1);
    }
}

/// Whether entry `i` shows is decided by the entries before it.
proof fn lemma_shown_same(entries: Seq<TocEntry>, a: Seq<bool>, b: Seq<bool>, n: int)
    requires
        forall|j: int| 0 <= j < n - 1 ==> is_collapsed(a, j) == is_collapsed(b, j),
    ensures
        shown_below(entries, a, n) == shown_below(entries, b, n),
    decreases n,
{
    if n > 0 {
        lemma_shown_same(entries, a, b, n - 1);
        assert(shows(entries, a, n - 1) == shows(entries, b, n - 1));
    }
}

/// The row of entry `e`, if it shows: as many rows come before it as entries
/// below `e` show.
proof fn lemma_row_of(entries: Seq<TocEntry>, collapsed: Seq<bool>, e: int, p: int)
    requires
        entries.len() <= usize::MAX,
        0 <= e < entries.len(),
    ensures
        shows(entries, collapsed, e) ==> ({
            let place = shown_below(entries, collapsed, e).len() as int;
            place < visible(entries, collapsed).len() && visible(entries, collapsed)[place] == e
        }),
        0 <= p < visible(entries, collapsed).len() && visible(entries, collapsed)[p] == e ==> p
            == shown_below(entries, collapsed, e).len() && shows(entries, collapsed, e),
{
    let place = shown_below(entries, collapsed, e).len() as int;
    let list = visible(entries, collapsed);
    lemma_shown_below(entries, collapsed, entries.len() as int);
    if shows(entries, collapsed, e) {
        lemma_shown_prefix(entries, collapsed, e + 1, entries.len() as int);
        let first = shown_below(entries, collapsed, e + 1);
        assert(first[place] == e);
        assert(list[place] == e);
    }
    if 0 <= p < list.len() && list[p] == e {
        assert(shows(entries, collapsed, e));
        if p < place {
            assert(list[p] < list[place]);
        } else if place < p {
            assert(list[place] < list[p]);
        }
    }
}

/// What the sidebar is told.
#[derive(Debug)]
pub enum TocInput {
    SetEntries(Vec<TocEntry>),
    /// Highlight the row for the section on screen. `None` clears the
    /// highlight.
    Highlight(Option<usize>),
    /// Grab keyboard focus and select the entry (`None`: the first row).
    Focus(Option<usize>),
    /// Move the keyboard cursor by a signed number of rows.
    MoveCursor(isize),
    /// Open a leaf entry, or expand/collapse an entry with children.
    Activate,
    /// Collapse the entry with children under the cursor.
    Collapse,
    /// Open the entry at a row (from a mouse click).
    OpenAt(usize),
}

/// What the sidebar asks for.
#[derive(Debug, Clone, Copy, PartialEq, Eq, Structural)]
pub enum TocOutput {
    GoTo(usize),
}

/// What is to be done on the screen, in order.
#[derive(Debug, Clone, Copy, PartialEq, Eq, Structural)]
pub enum TocEffect {
    /// Show the rows afresh, at the same scroll position or at the top.
    Rebuild { keep_scroll: bool },
    /// Clear the selection and highlight this row alone.
    Mark(Option<usize>),
    /// Select and focus this row, and scroll it into view.
    Select(usize),
    /// Send this to the reader.
    Output(TocOutput),
}

/// The sidebar: the entries, which of them are collapsed, and the entry of
/// each row. Collapsing hides a subtree, so a row is not its entry's index.
#[derive(Debug)]
pub struct TocSidebar {
    pub entries: Vec<TocEntry>,
    pub collapsed: Vec<bool>,
    pub rows: Vec<usize>,
}

/// The row of entry `e`, if it is on one.
pub open spec fn row_of(rows: Seq<usize>, e: Option<usize>) -> Option<usize> {
    match e {
        Some(e) => if rows.contains(e) {
            Some(rows.index_of(e) as usize)
        } else {
            None
        },
        None => None,
    }
}

/// The row that the cursor moves to from `from`: `delta` rows on, but not past
/// either end.
pub open spec fn moved(from: int, delta: int, n: int) -> int {
    if from + delta < 0 {
        0
    } else if from + delta > n - 1 {
        n - 1
    } else {
        from + delta
    }
}

impl TocSidebar {
    /// There is a collapse state for each entry, and the rows are those of the
    /// entries that show.
    pub open spec fn wf(self) -> bool {
        &&& self.collapsed@.len() == self.entries@.len()
        &&& self.rows@ == visible(self.entries@, self.collapsed@)
    }

    /// The entry under the cursor.
    pub open spec fn cursor(self, selected: Option<usize>) -> Option<usize> {
        match selected {
            Some(p) => if p < self.rows@.len() {
                Some(self.rows@[p as int])
            } else {
                None
            },
            None => None,
        }
    }

    /// Whether the cursor is on an entry with children.
    pub open spec fn on_parent(self, selected: Option<usize>) -> bool {
        let e = self.cursor(selected);
        e is Some && is_parent(self.entries@, e->0 as int)
    }

    /// Whether the cursor is on an expanded entry with children.
    pub open spec fn can_collapse(self, selected: Option<usize>) -> bool {
        let e = self.cursor(selected);
        e is Some && is_parent(self.entries@, e->0 as int) && !self.collapsed@[e->0 as int]
    }

    /// A sidebar without entries.
    pub fn new() -> (r: TocSidebar)
        ensures
            r.wf(),
            r.entries@.len() == 0,
    {
        TocSidebar { entries: Vec::new(), collapsed: Vec::new(), rows: Vec::new() }
    }

    proof fn lemma_rows(&self)
        requires
            self.wf(),
        ensures
            self.entries@.len() <= usize::MAX,
            forall|p: int|
                0 <= p < self.rows@.len() ==> (#[trigger] self.rows@[p]) < self.entries@.len()
                    && shows(self.entries@, self.collapsed@, self.rows@[p] as int),
            forall|p: int, q: int| 0 <= p < q < self.rows@.len() ==> self.rows@[p] < self.rows@[q],
    {
        assert(self.entries.len() == self.entries@.len());
        lemma_shown_below(self.entries@, self.collapsed@, self.entries@.len() as int);
    }

    fn find_row(&self, e: Option<usize>) -> (r: Option<usize>)
        requires
            self.wf(),
        ensures
            r == row_of(self.rows@, e),
    {
        let entry: usize = match e {
            Some(entry) => entry,
            None => {
                return None;
            },
        };
        let mut p: usize = 0;
        while p < self.rows.len()
            invariant
                self.wf(),
                e == Some(entry),
                p <= self.rows@.len(),
                forall|q: int| 0 <= q < p ==> self.rows@[q] != entry,
            decreases self.rows@.len() - p,
        {
            if self.rows[p] == entry {
                proof {
                    self.lemma_rows();
                    let q = self.rows@.index_of(entry);
                    assert(self.rows@[p as int] == entry);
                    assert(self.rows@.contains(entry));
                    assert(self.rows@[q] == entry);
                    if q < p {
                        assert(self.rows@[q] < self.rows@[p as int]);
                    } else if p < q {
                        assert(self.rows@[p as int] < self.rows@[q]);
                    }
                }
                return Some(p);
            }
            p += 1;
        }
        None
    }

    fn current_entry(&self, selected: Option<usize>) -> (r: Option<usize>)
        ensures
            r == self.cursor(selected),
    {
        match selected {
            Some(p) => if p < self.rows.len() {
                Some(self.rows[p])
            } else {
                None
            },
            None => None,
        }
    }

    /// Collapse or expand the entry at row `p`; its row stays where it is.
    fn set_collapsed(&mut self, p: usize, value: bool)
        requires
            old(self).wf(),
            p < old(self).rows@.len(),
        ensures
            final(self).wf(),
            final(self).entries == old(self).entries,
            final(self).collapsed@ == old(self).collapsed@.update(
                old(self).rows@[p as int] as int,
                value,
            ),
            p < final(self).rows@.len(),
            final(self).rows@[p as int] == old(self).rows@[p as int],
    {
        let e: usize = self.rows[p];
        let ghost entries = self.entries@;
        let ghost before = self.collapsed@;
        proof {
            self.lemma_rows();
            lemma_row_of(entries, before, e as int, p as int);
        }
        self.collapsed[e] = value;
        let ghost after = self.collapsed@;
        self.rows = visible_indices(self.entries.as_slice(), self.collapsed.as_slice());
        proof {
            lemma_shown_same(entries, before, after, e as int);
            lemma_shown_same(entries, before, after, e + 1);
            assert(shows(entries, before, e as int));
            assert(shown_below(entries, before, e + 1).last() == e);
            if !shows(entries, after, e as int) {
                assert(shown_below(entries, after, e + 1) == shown_below(
                    entries,
                    after,
                    e as int,
                ));
            }
            lemma_row_of(entries, after, e as int, p as int);
        }
    }

    /// Handle a message. `selected` is the row under the keyboard cursor.
    pub fn update(&mut self, msg: TocInput, selected: Option<usize>) -> (r: Vec<TocEffect>)
        requires
            old(self).wf(),
        ensures
            final(self).wf(),
            final(self).collapsed@ == collapsed_after(*old(self), msg, selected),
            r@ == toc_effects(*old(self), msg, selected),
            match msg {
                TocInput::SetEntries(entries) => {
                    &&& final(self).entries == entries
                    &&& forall|i: int|
                        0 <= i < entries@.len() ==> !(#[trigger] final(self).collapsed@[i])
                    &&& r@ == seq![TocEffect::Rebuild { keep_scroll: false }]
                },
                TocInput::Highlight(index) => {
                    &&& *final(self) == *old(self)
                    &&& r@ == seq![TocEffect::Mark(row_of(old(self).rows@, index))]
                },
                TocInput::Focus(target) => {
                    &&& *final(self) == *old(self)
                    &&& r@ == (if old(self).rows@.len() == 0 {
                        Seq::empty()
                    } else {
                        seq![
                            TocEffect::Select(
                                match row_of(old(self).rows@, target) {
                                    Some(p) => p,
                                    None => 0,
                                },
                            ),
                        ]
                    })
                },
                TocInput::MoveCursor(delta) => {
                    &&& *final(self) == *old(self)
                    &&& r@ == (if old(self).rows@.len() == 0 {
                        Seq::empty()
                    } else {
                        seq![
                            TocEffect::Select(
                                moved(
                                    match selected {
                                        Some(p) => p as int,
                                        None => 0,
                                    },
                                    delta as int,
                                    old(self).rows@.len() as int,
                                ) as usize,
                            ),
                        ]
                    })
                },
                TocInput::Activate => {
                    &&& final(self).entries == old(self).entries
                    &&& if old(self).on_parent(selected) {
                        &&& final(self).collapsed@ == old(self).collapsed@.update(
                            old(self).cursor(selected)->0 as int,
                            !old(self).collapsed@[old(self).cursor(selected)->0 as int],
                        )
                        &&& final(self).cursor(selected) == old(self).cursor(selected)
                        &&& r@ == seq![
                            TocEffect::Rebuild { keep_scroll: true },
                            TocEffect::Select(selected->0),
                        ]
                    } else {
                        &&& *final(self) == *old(self)
                        &&& r@ == (match old(self).cursor(selected) {
                            Some(e) => seq![TocEffect::Output(TocOutput::GoTo(e))],
                            None => Seq::empty(),
                        })
                    }
                },
                TocInput::Collapse => {
                    &&& final(self).entries == old(self).entries
                    &&& if old(self).can_collapse(selected) {
                        &&& final(self).collapsed@ == old(self).collapsed@.update(
                            old(self).cursor(selected)->0 as int,
                            true,
                        )
                        &&& final(self).cursor(selected) == old(self).cursor(selected)
                        &&& r@ == seq![
                            TocEffect::Rebuild { keep_scroll: true },
                            TocEffect::Select(selected->0),
                        ]
                    } else {
                        &&& *final(self) == *old(self)
                        &&& r@ == Seq::<TocEffect>::empty()
                    }
                },
                TocInput::OpenAt(position) => {
                    &&& *final(self) == *old(self)
                    &&& r@ == (match old(self).cursor(Some(position)) {
                        Some(e) => seq![TocEffect::Output(TocOutput::GoTo(e))],
                        None => Seq::empty(),
                    })
                },
            },
    {
        let mut out: Vec<TocEffect> = Vec::new();
        match msg {
            TocInput::SetEntries(entries) => {
                let mut collapsed: Vec<bool> = Vec::new();
                let mut i: usize = 0;
                while i < entries.len()
                    invariant
                        i <= entries@.len(),
                        collapsed@.len() == i,
                        forall|k: int| 0 <= k < i ==> !(#[trigger] collapsed@[k]),
                    decreases entries@.len() - i,
                {
                    collapsed.push(false);
                    i += 1;
                }
                self.rows = visible_indices(entries.as_slice(), collapsed.as_slice());
                self.entries = entries;
                self.collapsed = collapsed;
                out.push(TocEffect::Rebuild { keep_scroll: false });
            },
            TocInput::Highlight(index) => {
                out.push(TocEffect::Mark(self.find_row(index)));
            },
            TocInput::Focus(target) => {
                if self.rows.len() > 0 {
                    out.push(
                        TocEffect::Select(
                            match self.find_row(target) {
                                Some(p) => p,
                                None => 0,
                            },
                        ),
                    );
                }
            },
            TocInput::MoveCursor(delta) => {
                if self.rows.len() > 0 {
                    let from: usize = match selected {
                        Some(p) => p,
                        None => 0,
                    };
                    let last: usize = self.rows.len() - 1;
                    let target: i128 = from as i128 + delta as i128;
                    out.push(
                        TocEffect::Select(
                            if target < 0 {
                                0
                            } else if target > last as i128 {
                                last
                            } else {
                                target as usize
                            },
                        ),
                    );
                }
            },
            TocInput::Activate => {
                if let Some(e) = self.current_entry(selected) {
                    let p: usize = selected.unwrap();
                    proof {
                        self.lemma_rows();
                        assert(self.rows@[p as int] == e);
                    }
                    if has_children(self.entries.as_slice(), e) {
                        let collapsed = self.collapsed[e];
                        self.set_collapsed(p, !collapsed);
                        out.push(TocEffect::Rebuild { keep_scroll: true });
                        out.push(TocEffect::Select(p));
                    } else {
                        out.push(TocEffect::Output(TocOutput::GoTo(e)));
                    }
                }
            },
            TocInput::Collapse => {
                if let Some(e) = self.current_entry(selected) {
                    let p: usize = selected.unwrap();
                    proof {
                        self.lemma_rows();
                        assert(self.rows@[p as int] == e);
                    }
                    if has_children(self.entries.as_slice(), e) && !self.collapsed[e] {
                        self.set_collapsed(p, true);
                        out.push(TocEffect::Rebuild { keep_scroll: true });
                        out.push(TocEffect::Select(p));
                    }
                }
            },
            TocInput::OpenAt(position) => {
                if let Some(e) = self.current_entry(Some(position)) {
                    out.push(TocEffect::Output(TocOutput::GoTo(e)));
                }
            },
        }
        out
    }
}

/// Which entries are collapsed after `msg`.
pub open spec fn collapsed_after(s: TocSidebar, msg: TocInput, selected: Option<usize>) -> Seq<
    bool,
> {
    match msg {
        TocInput::SetEntries(entries) => Seq::new(entries@.len(), |i: int| false),
        TocInput::Activate => if s.on_parent(selected) {
            let e = s.cursor(selected)->0 as int;
            s.collapsed@.update(e, !s.collapsed@[e])
        } else {
            s.collapsed@
        },
        TocInput::Collapse => if s.can_collapse(selected) {
            s.collapsed@.update(s.cursor(selected)->0 as int, true)
        } else {
            s.collapsed@
        },
        _ => s.collapsed@,
    }
}

/// What opens the entry under the cursor.
pub open spec fn goes_to(e: Option<usize>) -> Seq<TocEffect> {
    match e {
        Some(e) => seq![TocEffect::Output(TocOutput::GoTo(e))],
        None => Seq::empty(),
    }
}

/// What is done for `msg`.
pub open spec fn toc_effects(s: TocSidebar, msg: TocInput, selected: Option<usize>) -> Seq<
    TocEffect,
> {
    let redone = seq![TocEffect::Rebuild { keep_scroll: true }, TocEffect::Select(selected->0)];
    match msg {
        TocInput::SetEntries(_) => seq![TocEffect::Rebuild { keep_scroll: false }],
        TocInput::Highlight(index) => seq![TocEffect::Mark(row_of(s.rows@, index))],
        TocInput::Focus(target) => if s.rows@.len() == 0 {
            Seq::empty()
        } else {
            seq![
                TocEffect::Select(
                    match row_of(s.rows@, target) {
                        Some(p) => p,
                        None => 0,
                    },
                ),
            ]
        },
        TocInput::MoveCursor(delta) => if s.rows@.len() == 0 {
            Seq::empty()
        } else {
            let from = match selected {
                Some(p) => p as int,
                None => 0,
            };
            seq![TocEffect::Select(moved(from, delta as int, s.rows@.len() as int) as usize)]
        },
        TocInput::Activate => if s.on_parent(selected) {
            redone
        } else {
            goes_to(s.cursor(selected))
        },
        TocInput::Collapse => if s.can_collapse(selected) {
            redone
        } else {
            Seq::empty()
        },
        TocInput::OpenAt(position) => goes_to(s.cursor(Some(position))),
    }
}

/// What a row of the sidebar looks like.
#[derive(Debug)]
pub struct TocRow {
    /// Entries that are not nested are headings.
    pub heading: bool,
    pub tooltip: String,
    /// The indent in pixels.
    pub margin: i32,
}

/// The row for an entry.
pub fn toc_row(entry: &TocEntry) -> (r: TocRow)
    requires
        entry.page < usize::MAX,
        entry.depth * 12 + 6 <= i32::MAX,
    ensures
        r.heading == (entry.depth == 0),
        r.tooltip@ == "Page "@ + decimal((entry.page + 1) as nat),
        r.margin == entry.depth * 12 + 6,
{
    let number = decimal_of(entry.page + 1);
    TocRow {
        heading: entry.depth == 0,
        tooltip: "Page ".to_owned().concat(number.as_str()),
        margin: entry.depth as i32 * 12 + 6,
    }
}

/// A hidden entry hides its whole subtree.
pub proof fn law_hidden_entry_hides_its_subtree(
    entries: Seq<TocEntry>,
    collapsed: Seq<bool>,
    j: int,
    i: int,
)
    requires
        in_subtree(entries, j, i),
        !shows(entries, collapsed, j),
    ensures
        !shows(entries, collapsed, i),
{
    let k = choose|k: int| #[trigger] in_subtree(entries, k, j) && is_collapsed(collapsed, k);
    lemma_subtree_transitive(entries, k, j, i);
}

/// A collapsed entry hides its subtree but stays as it was itself, and so do
/// the entries outside of its subtree.
pub proof fn law_collapse_hides_the_subtree_alone(
    entries: Seq<TocEntry>,
    collapsed: Seq<bool>,
    e: int,
    i: int,
)
    requires
        0 <= e < collapsed.len(),
        collapsed.len() == entries.len(),
        0 <= i < entries.len(),
    ensures
        in_subtree(entries, e, i) ==> !shows(entries, collapsed.update(e, true), i),
        !in_subtree(entries, e, i) ==> shows(entries, collapsed.update(e, true), i) == shows(
            entries,
            collapsed.update(e, false),
            i,
        ),
        shows(entries, collapsed.update(e, true), e) == shows(entries, collapsed, e),
{
    let shut = collapsed.update(e, true);
    let open = collapsed.update(e, false);
    if in_subtree(entries, e, i) {
        assert(is_collapsed(shut, e));
    } else {
        assert forall|j: int| #[trigger] in_subtree(entries, j, i) implies is_collapsed(shut, j)
            == is_collapsed(open, j) by {
            assert(j != e);
        }
    }
    assert forall|j: int| #[trigger] in_subtree(entries, j, e) implies is_collapsed(shut, j)
        == is_collapsed(collapsed, j) by {
        assert(j != e);
    }
}

/// Expanding an entry that was collapsed brings back the rows there were.
pub proof fn law_expand_undoes_collapse(entries: Seq<TocEntry>, collapsed: Seq<bool>, e: int)
    requires
        0 <= e < collapsed.len(),
        !collapsed[e],
    ensures
        visible(entries, collapsed.update(e, true).update(e, false)) == visible(entries, collapsed),
{
    assert(collapsed.update(e, true).update(e, false) =~= collapsed);
}

/// With nothing collapsed, every entry has a row.
pub proof fn law_everything_shows_when_expanded(entries: Seq<TocEntry>, collapsed: Seq<bool>)
    requires
        entries.len() <= usize::MAX,
        forall|j: int| 0 <= j < collapsed.len() ==> !(#[trigger] collapsed[j]),
    ensures
        visible(entries, collapsed) == Seq::new(entries.len(), |i: int| i as usize),
{
    lemma_all_show(entries, collapsed, entries.len() as int);
}

proof fn lemma_all_show(entries: Seq<TocEntry>, collapsed: Seq<bool>, n: int)
    requires
        0 <= n <= usize::MAX,
        forall|j: int| 0 <= j < collapsed.len() ==> !(#[trigger] collapsed[j]),
    ensures
        shown_below(entries, collapsed, n) == Seq::new(n as nat, |i: int| i as usize),
    decreases n,
{
    if n > 0 {
        lemma_all_show(entries, collapsed, n - 1);
        assert(shows(entries, collapsed, n - 1));
    }
    assert(shown_below(entries, collapsed, n) =~= Seq::new(n as nat, |i: int| i as usize));
}

/// The rows are the entries that show, each once and in order.
pub proof fn law_rows_are_the_entries_that_show(
    entries: Seq<TocEntry>,
    collapsed: Seq<bool>,
    a: int,
    b: int,
    i: int,
)
    requires
        entries.len() <= usize::MAX,
        0 <= i < entries.len(),
    ensures
        0 <= a < b < visible(entries, collapsed).len() ==> visible(entries, collapsed)[a]
            < visible(entries, collapsed)[b],
        visible(entries, collapsed).contains(i as usize) == shows(entries, collapsed, i),
{
    lemma_shown_below(entries, collapsed, entries.len() as int);
}

/// Activating an entry with children twice changes nothing.
pub proof fn law_activating_twice_changes_nothing(collapsed: Seq<bool>, e: int)
    requires
        0 <= e < collapsed.len(),
    ensures
        ({
            let once = collapsed.update(e, !collapsed[e]);
            once.update(e, !once[e]) == collapsed
        }),
{
    let once = collapsed.update(e, !collapsed[e]);
    assert(once.update(e, !once[e]) =~= collapsed);
}

/// The keys of the sidebar. `None` disables one.
#[derive(Debug, Clone, Copy)]
pub struct SidebarBindings {
    pub down: Option<(ModifierType, Key)>,
    pub up: Option<(ModifierType, Key)>,
    pub activate: Option<(ModifierType, Key)>,
    pub collapse: Option<(ModifierType, Key)>,
}

impl Default for SidebarBindings {
    fn default() -> (r: SidebarBindings)
        ensures
            r == (SidebarBindings { down: None, up: None, activate: None, collapse: None }),
    {
        SidebarBindings { down: None, up: None, activate: None, collapse: None }
    }
}

/// What a key does in the sidebar. Where two bindings are the same, the first
/// of down, up, activate and collapse counts.
pub open spec fn sidebar_input(
    bindings: SidebarBindings,
    key: Key,
    modifiers: ModifierType,
) -> Option<TocInput> {
    if bindings.down == Some((modifiers, key)) {
        Some(TocInput::MoveCursor(1))
    } else if bindings.up == Some((modifiers, key)) {
        Some(TocInput::MoveCursor((-1) as isize))
    } else if bindings.activate == Some((modifiers, key)) {
        Some(TocInput::Activate)
    } else if bindings.collapse == Some((modifiers, key)) {
        Some(TocInput::Collapse)
    } else {
        None
    }
}

/// Whether a binding is for this key with these modifiers.
fn is_bound(binding: Option<(ModifierType, Key)>, key: Key, modifiers: ModifierType) -> (r: bool)
    ensures
        r == (binding == Some((modifiers, key))),
{
    match binding {
        Some((m, k)) => m == modifiers && k == key,
        None => false,
    }
}

/// What a key does in the sidebar.
pub fn sidebar_key(bindings: SidebarBindings, key: Key, modifiers: ModifierType) -> (r: Option<
    TocInput,
>)
    ensures
        r == sidebar_input(bindings, key, modifiers),
{
    if is_bound(bindings.down, key, modifiers) {
        return Some(TocInput::MoveCursor(1));
    }
    if is_bound(bindings.up, key, modifiers) {
        return Some(TocInput::MoveCursor(-1));
    }
    if is_bound(bindings.activate, key, modifiers) {
        return Some(TocInput::Activate);
    }
    if is_bound(bindings.collapse, key, modifiers) {
        return Some(TocInput::Collapse);
    }
    None
}

/// An entry has children if and only if there is something below it.
pub proof fn law_parent_has_a_subtree(entries: Seq<TocEntry>, i: int)
    ensures
        is_parent(entries, i) <==> exists|j: int| #[trigger] in_subtree(entries, i, j),
{
    if is_parent(entries, i) {
        assert(in_subtree(entries, i, i + 1));
    }
    if exists|j: int| #[trigger] in_subtree(entries, i, j) {
        let j = choose|j: int| #[trigger] in_subtree(entries, i, j);
        assert(entries[i + 1].depth > entries[i].depth);
    }
}

/// The row of an entry is the first that lists it; an entry that no row lists
/// has none.
pub proof fn law_row_lists_its_entry(rows: Seq<usize>, e: usize)
    requires
        rows.len() <= usize::MAX,
    ensures
        match row_of(rows, Some(e)) {
            Some(p) => p < rows.len() && rows[p as int] == e,
            None => !rows.contains(e),
        },
        row_of(rows, None) is None,
{
    if rows.contains(e) {
        rows.index_of_first_ensures(e);
    }
}

/// The cursor goes as many rows on as was asked for, and stops at the first
/// and the last row.
pub proof fn law_cursor_moves_by_rows(from: int, delta: int, n: int)
    requires
        0 <= from < n,
    ensures
        0 <= from + delta < n ==> moved(from, delta, n) == from + delta,
        from + delta < 0 ==> moved(from, delta, n) == 0,
        from + delta >= n ==> moved(from, delta, n) == n - 1,
{
}

/// The entry under the cursor is that of the selected row. It can be collapsed
/// if the next entry is deeper and it is not collapsed yet.
pub proof fn law_cursor_is_on_the_selected_row(sidebar: TocSidebar, p: usize)
    requires
        p < sidebar.rows@.len(),
    ensures
        ({
            let e = sidebar.rows@[p as int] as int;
            let deeper = e + 1 < sidebar.entries@.len() && sidebar.entries@[e + 1].depth
                > sidebar.entries@[e].depth;
            &&& sidebar.cursor(Some(p)) == Some(sidebar.rows@[p as int])
            &&& sidebar.on_parent(Some(p)) <==> deeper
            &&& sidebar.can_collapse(Some(p)) <==> deeper && !sidebar.collapsed@[e]
            &&& sidebar.cursor(None) is None
            &&& !sidebar.on_parent(None)
            &&& !sidebar.can_collapse(None)
        }),
{
}

/// Each key of the sidebar does what its binding is for: down and up by one
/// row, activate and collapse. Where two bindings are the same, the first of
/// these counts; a key that none is for does nothing.
pub proof fn law_sidebar_key_does_what_it_is_bound_to(
    bindings: SidebarBindings,
    key: Key,
    modifiers: ModifierType,
)
    ensures
        ({
            let bound = Some((modifiers, key));
            let input = sidebar_input(bindings, key, modifiers);
            &&& bindings.down == bound ==> input == Some(TocInput::MoveCursor(1))
            &&& bindings.down != bound && bindings.up == bound ==> input == Some(
                TocInput::MoveCursor((-1) as isize),
            )
            &&& bindings.down != bound && bindings.up != bound && bindings.activate == bound
                ==> input == Some(TocInput::Activate)
            &&& bindings.down != bound && bindings.up != bound && bindings.activate != bound
                && bindings.collapse == bound ==> input == Some(TocInput::Collapse)
            &&& input is None <==> bindings.down != bound && bindings.up != bound
                && bindings.activate != bound && bindings.collapse != bound
        }),
{
}

/// Activating an entry with children turns it round, and it alone; its row
/// stays selected and the rows are shown afresh where they are. Any other entry
/// is opened: the one of the selected row.
pub proof fn law_activated_entry_opens_or_turns_round(s: TocSidebar, p: usize, i: int)
    requires
        s.wf(),
        p < s.rows@.len(),
        0 <= i < s.entries@.len(),
    ensures
        ({
            let e = s.rows@[p as int];
            let below = exists|j: int| #[trigger] in_subtree(s.entries@, e as int, j);
            let after = collapsed_after(s, TocInput::Activate, Some(p));
            let effects = toc_effects(s, TocInput::Activate, Some(p));
            &&& after.len() == s.collapsed@.len()
            &&& below ==> {
                &&& after[i] == (if i == e {
                    !s.collapsed@[i]
                } else {
                    s.collapsed@[i]
                })
                &&& effects == seq![
                    TocEffect::Rebuild { keep_scroll: true },
                    TocEffect::Select(p),
                ]
            }
            &&& !below ==> {
                &&& after == s.collapsed@
                &&& effects == seq![TocEffect::Output(TocOutput::GoTo(e))]
            }
        }),
{
    s.lemma_rows();
    law_parent_has_a_subtree(s.entries@, s.rows@[p as int] as int);
}

/// Collapsing an entry hides what is below it and turns nothing else; an entry
/// without children, or collapsed already, stays as it is.
pub proof fn law_collapsed_entry_stays_collapsed(s: TocSidebar, p: usize, i: int)
    requires
        s.wf(),
        p < s.rows@.len(),
        0 <= i < s.entries@.len(),
    ensures
        ({
            let e = s.rows@[p as int];
            let below = exists|j: int| #[trigger] in_subtree(s.entries@, e as int, j);
            let after = collapsed_after(s, TocInput::Collapse, Some(p));
            let effects = toc_effects(s, TocInput::Collapse, Some(p));
            &&& after.len() == s.collapsed@.len()
            &&& i != e ==> after[i] == s.collapsed@[i]
            &&& below ==> after[e as int]
            &&& !below ==> after == s.collapsed@
            &&& below && !s.collapsed@[e as int] ==> effects == seq![
                TocEffect::Rebuild { keep_scroll: true },
                TocEffect::Select(p),
            ]
            &&& !below || s.collapsed@[e as int] ==> effects.len() == 0
        }),
{
    s.lemma_rows();
    law_parent_has_a_subtree(s.entries@, s.rows@[p as int] as int);
    if s.collapsed@[s.rows@[p as int] as int] {
        assert(collapsed_after(s, TocInput::Collapse, Some(p)) == s.collapsed@);
    }
}

/// A row that is clicked opens its own entry; a row that is not there, none.
pub proof fn law_clicked_row_opens_its_entry(s: TocSidebar, p: usize, selected: Option<usize>)
    ensures
        p < s.rows@.len() ==> toc_effects(s, TocInput::OpenAt(p), selected) == seq![
            TocEffect::Output(TocOutput::GoTo(s.rows@[p as int])),
        ],
        p >= s.rows@.len() ==> toc_effects(s, TocInput::OpenAt(p), selected).len() == 0,
        collapsed_after(s, TocInput::OpenAt(p), selected) == s.collapsed@,
{
}

/// The row of the highlighted entry is marked, and that of the entry that gets
/// the keyboard is selected; where it has no row, none is marked, and the first
/// is selected. Neither collapses or expands anything.
pub proof fn law_entry_is_shown_by_its_row(s: TocSidebar, e: usize, selected: Option<usize>)
    requires
        s.rows@.len() <= usize::MAX,
    ensures
        ({
            let marked = toc_effects(s, TocInput::Highlight(Some(e)), selected);
            let focused = toc_effects(s, TocInput::Focus(Some(e)), selected);
            &&& s.rows@.contains(e) ==> {
                &&& marked.len() == 1
                &&& marked[0] matches TocEffect::Mark(Some(p)) && p < s.rows@.len() && s.rows@[
                p as int] == e
                &&& focused.len() == 1
                &&& focused[0] matches TocEffect::Select(p) && p < s.rows@.len() && s.rows@[
                p as int] == e
            }
            &&& !s.rows@.contains(e) ==> {
                &&& marked == seq![TocEffect::Mark(None)]
                &&& s.rows@.len() > 0 ==> focused == seq![TocEffect::Select(0)]
                &&& s.rows@.len() == 0 ==> focused.len() == 0
            }
            &&& collapsed_after(s, TocInput::Highlight(Some(e)), selected) == s.collapsed@
            &&& collapsed_after(s, TocInput::Focus(Some(e)), selected) == s.collapsed@
        }),
{
    law_row_lists_its_entry(s.rows@, e);
}

/// The cursor moves from the selected row, or from the first where none is, by
/// as many rows as was asked for, and stays on the rows.
pub proof fn law_cursor_is_moved_from_the_selected_row(s: TocSidebar, p: usize, delta: isize)
    requires
        p < s.rows@.len() <= usize::MAX,
    ensures
        ({
            let n = s.rows@.len() as int;
            let effects = toc_effects(s, TocInput::MoveCursor(delta), Some(p));
            &&& effects.len() == 1
            &&& effects[0] matches TocEffect::Select(q) && q < n && (0 <= p + delta < n ==> q == p
                + delta) && (p + delta < 0 ==> q == 0) && (p + delta >= n ==> q == n - 1)
            &&& toc_effects(s, TocInput::MoveCursor(delta), None) == toc_effects(
                s,
                TocInput::MoveCursor(delta),
                Some(0),
            )
            &&& collapsed_after(s, TocInput::MoveCursor(delta), Some(p)) == s.collapsed@
        }),
{
    law_cursor_moves_by_rows(p as int, delta as int, s.rows@.len() as int);
}

/// New entries are shown from the top, and none of them is collapsed.
pub proof fn law_new_entries_are_expanded(
    s: TocSidebar,
    entries: Vec<TocEntry>,
    selected: Option<usize>,
    i: int,
)
    requires
        0 <= i < entries@.len(),
    ensures
        ({
            let after = collapsed_after(s, TocInput::SetEntries(entries), selected);
            &&& after.len() == entries@.len()
            &&& !after[i]
            &&& toc_effects(s, TocInput::SetEntries(entries), selected) == seq![
                TocEffect::Rebuild { keep_scroll: false },
            ]
        }),
{
}

} // verus!
