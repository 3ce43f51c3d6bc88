//! The documents that were opened last, with the page each was left at.
use vstd::prelude::*;
use vstd::slice::slice_subrange;
use vstd::string::*;
use vstd::utf8::*;

use crate::config::{settings_dir, Config};
use crate::paths::{components, joined, shown, FilePath};
use crate::text::{
    chars_of, decimal, decimal_of, is_digit, last_place, last_place_of, law_number_of_decimal,
    lemma_last_place, lemma_line_len, line_end, line_len, lines, number, number_of, string_of,
    strip_return, trim, trimmed,
};

verus! {

/// How many documents are remembered.
pub const HISTORY_MAX: usize = 50;

/// Documents with the page each was left at, the most recent first.
#[derive(Debug)]
pub struct History {
    pub entries: Vec<(FilePath, usize)>,
}

/// The entries, with their paths as bytes.
pub open spec fn history_view(entries: Seq<(FilePath, usize)>) -> Seq<(Seq<u8>, usize)> {
    entries.map_values(|e: (FilePath, usize)| (e.0@, e.1))
}

impl View for History {
    type V = Seq<(Seq<u8>, usize)>;

    open spec fn view(&self) -> Seq<(Seq<u8>, usize)> {
        history_view(self.entries@)
    }
}

impl Clone for History {
    fn clone(&self) -> (r: History)
        ensures
            r@ == self@,
    {
        let mut entries: Vec<(FilePath, usize)> = Vec::new();
        let mut i: usize = 0;
        while i < self.entries.len()
            invariant
                i <= self.entries@.len(),
                entries@.len() == i,
                forall|j: int|
                    0 <= j < i ==> (#[trigger] entries@[j]).0@ == self.entries@[j].0@
                        && entries@[j].1 == self.entries@[j].1,
            decreases self.entries@.len() - i,
        {
            entries.push((self.entries[i].0.clone(), self.entries[i].1));
            i += 1;
        }
        assert(history_view(entries@) =~= self@);
        History { entries }
    }
}

/// Whether two paths lead to the same document.
pub open spec fn same_path(a: Seq<u8>, b: Seq<u8>) -> bool {
    components(a) == components(b)
}

/// The page of the first entry for `path`.
pub open spec fn page_of(h: Seq<(Seq<u8>, usize)>, path: Seq<u8>) -> Option<usize>
    decreases h.len(),
{
    if h.len() == 0 {
        None
    } else if same_path(h[0].0, path) {
        Some(h[0].1)
    } else {
        page_of(h.skip(1), path)
    }
}

/// The entries that are not for `path`.
pub open spec fn others(h: Seq<(Seq<u8>, usize)>, path: Seq<u8>) -> Seq<(Seq<u8>, usize)>
    decreases h.len(),
{
    if h.len() == 0 {
        Seq::empty()
    } else if same_path(h.last().0, path) {
        others(h.drop_last(), path)
    } else {
        others(h.drop_last(), path).push(h.last())
    }
}

/// At most the first [`HISTORY_MAX`] entries.
pub open spec fn capped(h: Seq<(Seq<u8>, usize)>) -> Seq<(Seq<u8>, usize)> {
    if h.len() > HISTORY_MAX {
        h.take(HISTORY_MAX as int)
    } else {
        h
    }
}

/// The entries after `path` was left at `page`: it comes first, the others
/// follow, and the oldest are forgotten.
pub open spec fn visited(
    h: Seq<(Seq<u8>, usize)>,
    path: Seq<u8>,
    page: usize,
) -> Seq<(Seq<u8>, usize)> {
    capped(seq![(path, page)] + others(h, path))
}

/// The entry that a line of the history file holds: a path and, after the
/// last tab, a page. Paths may hold tabs themselves.
pub open spec fn line_entry(line: Seq<char>) -> Option<(Seq<u8>, usize)> {
    let tab = last_place(line, '\t');
    if tab < 0 {
        None
    } else {
        match number(trim(line.skip(tab + 1))) {
            Some(page) => Some((encode_utf8(line.take(tab)), page)),
            None => None,
        }
    }
}

/// The entries of the lines that hold one.
pub open spec fn line_entries(l: Seq<Seq<char>>) -> Seq<(Seq<u8>, usize)>
    decreases l.len(),
{
    if l.len() == 0 {
        Seq::empty()
    } else {
        match line_entry(l[0]) {
            Some(entry) => seq![entry] + line_entries(l.skip(1)),
            None => line_entries(l.skip(1)),
        }
    }
}

/// The line of the history file for an entry, without its line feed.
pub open spec fn entry_line(entry: (Seq<u8>, usize)) -> Seq<char> {
    shown(entry.0).push('\t') + decimal(entry.1 as nat)
}

/// The history file.
pub open spec fn file_text(h: Seq<(Seq<u8>, usize)>) -> Seq<char>
    decreases h.len(),
{
    if h.len() == 0 {
        Seq::empty()
    } else {
        file_text(h.drop_last()) + entry_line(h.last()).push('\n')
    }
}

fn parse_line(line: &[char]) -> (r: Option<(FilePath, usize)>)
    ensures
        match line_entry(line@) {
            Some(entry) => r is Some && ((r->0).0@, (r->0).1) == entry,
            None => r is None,
        },
{
    proof {
        lemma_last_place(line@, '\t');
    }
    let n: usize = line.len();
    match last_place_of(line, '\t') {
        Some(tab) => {
            let tail = slice_subrange(line, tab + 1, n);
            assert(tail@ =~= line@.skip(tab + 1));
            match number_of(trimmed(tail)) {
                Some(page) => {
                    let head = slice_subrange(line, 0, tab);
                    assert(head@ =~= line@.take(tab as int));
                    let text = string_of(head);
                    Some((FilePath::new(text.as_str()), page))
                },
                None => None,
            }
        },
        None => None,
    }
}

impl Default for History {
    fn default() -> (r: History)
        ensures
            r@ == Seq::<(Seq<u8>, usize)>::empty(),
    {
        let r = History { entries: Vec::new() };
        assert(r@ =~= Seq::empty());
        r
    }
}

impl History {
    /// The path of the history file.
    pub fn path(xdg: Option<FilePath>, home: Option<FilePath>) -> (r: FilePath)
        ensures
            r@ == joined(settings_dir(xdg, home), encode_utf8("history"@)),
    {
        Config::config_dir(xdg, home).join("history")
    }

    /// The history that a file holds; without a file, an empty one. Lines that
    /// hold no entry are skipped.
    pub fn load(raw: Option<&str>) -> (r: History)
        ensures
            match raw {
                Some(text) => r@ == line_entries(lines(text@)),
                None => r@ == Seq::<(Seq<u8>, usize)>::empty(),
            },
    {
        let text = match raw {
            Some(text) => text,
            None => {
                return History::default();
            },
        };
        let chars = chars_of(text);
        let s = chars.as_slice();
        let mut entries: Vec<(FilePath, usize)> = Vec::new();
        let mut from: usize = 0;
        assert(s@.skip(0) =~= s@);
        assert(history_view(entries@) + line_entries(lines(s@)) =~= line_entries(lines(s@)));
        while from < s.len()
            invariant
                from <= s@.len(),
                history_view(entries@) + line_entries(lines(s@.skip(from as int)))
                    == line_entries(lines(s@)),
            decreases s@.len() - from,
        {
            let ghost rest = s@.skip(from as int);
            let end: usize = line_end(s, from);
            proof {
                lemma_line_len(rest);
            }
            let mut to: usize = end;
            if end < s.len() && to > from && s[to - 1] == '\r' {
                to -= 1;
            }
            let line = slice_subrange(s, from, to);
            let next: usize = if end < s.len() {
                end + 1
            } else {
                end
            };
            proof {
                let whole = rest.take(line_len(rest));
                assert(s@.subrange(from as int, end as int) =~= whole);
                if end < s@.len() {
                    assert(line@ =~= strip_return(whole));
                    assert(rest.skip(line_len(rest) + 1) =~= s@.skip(next as int));
                } else {
                    assert(line@ =~= rest);
                    assert(s@.skip(next as int) =~= Seq::empty());
                    assert(lines(rest) =~= seq![line@] + lines(s@.skip(next as int)));
                }
                let all = lines(rest);
                assert(all == seq![line@] + lines(s@.skip(next as int)));
                assert(all[0] == line@);
                assert(all.skip(1) =~= lines(s@.skip(next as int)));
            }
            let ghost before = entries@;
            match parse_line(line) {
                Some(entry) => {
                    entries.push(entry);
                    assert(history_view(entries@) =~= history_view(before).push(
                        (entry.0@, entry.1),
                    ));
                    assert(history_view(before) + (seq![(entry.0@, entry.1)] + line_entries(
                        lines(s@.skip(next as int)),
                    )) =~= history_view(entries@) + line_entries(lines(s@.skip(next as int))));
                },
                None => {},
            }
            from = next;
        }
        assert(s@.skip(from as int) =~= Seq::empty());
        assert(history_view(entries@) + line_entries(lines(Seq::empty())) =~= history_view(
            entries@,
        ));
        History { entries }
    }

    /// The page that `path` was left at, if it is remembered.
    pub fn page_for(&self, path: &FilePath) -> (r: Option<usize>)
        ensures
            r == page_of(self@, path@),
    {
        let mut i: usize = 0;
        assert(self@.skip(0) =~= self@);
        while i < self.entries.len()
            invariant
                i <= self.entries@.len(),
                page_of(self@, path@) == page_of(self@.skip(i as int), path@),
            decreases self.entries@.len() - i,
        {
            assert(self@.skip(i as int)[0] == (self.entries@[i as int].0@, self.entries@[i as int].1));
            assert(self@.skip(i as int).skip(1) =~= self@.skip(i + 1));
            if self.entries[i].0.same(path) {
                return Some(self.entries[i].1);
            }
            i += 1;
        }
        None
    }

    /// The document that was opened last.
    pub fn most_recent(&self) -> (r: Option<&FilePath>)
        ensures
            match r {
                Some(path) => self@.len() > 0 && path@ == self@[0].0,
                None => self@.len() == 0,
            },
    {
        if self.entries.len() > 0 {
            Some(&self.entries[0].0)
        } else {
            None
        }
    }

    /// Remember that `path` was left at `page`: it moves to the front.
    pub fn set(&mut self, path: &FilePath, page: usize)
        ensures
            final(self)@ == visited(old(self)@, path@, page),
    {
        let ghost before = self@;
        let mut kept: Vec<(FilePath, usize)> = Vec::new();
        kept.push((path.clone(), page));
        let mut i: usize = 0;
        assert(before.take(0) =~= Seq::empty());
        assert(history_view(kept@) =~= seq![(path@, page)] + others(before.take(0), path@));
        while i < self.entries.len()
            invariant
                i <= self.entries@.len(),
                before == history_view(self.entries@),
                history_view(kept@) == seq![(path@, page)] + others(before.take(i as int), path@),
            decreases self.entries@.len() - i,
        {
            assert(before.take(i + 1).drop_last() =~= before.take(i as int));
            assert(before.take(i + 1).last() == (self.entries@[i as int].0@, self.entries@[i as int].1));
            if !self.entries[i].0.same(path) {
                let ghost held = kept@;
                let entry = &self.entries[i];
                kept.push((entry.0.clone(), entry.1));
                assert(history_view(kept@) =~= history_view(held).push((entry.0@, entry.1)));
            }
            i += 1;
        }
        assert(before.take(i as int) =~= before);
        let ghost all = kept@;
        kept.truncate(HISTORY_MAX);
        assert(history_view(kept@) =~= capped(history_view(all)));
        self.entries = kept;
    }

    /// The contents of the history file.
    pub fn save(&self) -> (r: String)
        ensures
            r@ == file_text(self@),
    {
        let mut out = String::new();
        let mut i: usize = 0;
        assert(self@.take(0) =~= Seq::empty());
        while i < self.entries.len()
            invariant
                i <= self.entries@.len(),
                out@ == file_text(self@.take(i as int)),
            decreases self.entries@.len() - i,
        {
            assert(self@.take(i + 1).drop_last() =~= self@.take(i as int));
            assert(self@.take(i + 1).last() == (self.entries@[i as int].0@, self.entries@[i as int].1));
            let ghost before = out@;
            let text = self.entries[i].0.text();
            out.append(text.as_str());
            out.push('\t');
            let page = decimal_of(self.entries[i].1);
            out.append(page.as_str());
            out.push('\n');
            assert(out@ =~= before + entry_line(self@[i as int]).push('\n'));
            i += 1;
        }
        assert(self@.take(i as int) =~= self@);
        out
    }
}

proof fn lemma_page_of_others(h: Seq<(Seq<u8>, usize)>, path: Seq<u8>, other: Seq<u8>)
    requires
        !same_path(path, other),
    ensures
        page_of(others(h, path), other) == page_of(h, other),
    decreases h.len(),
{
    if h.len() > 0 {
        lemma_page_of_others(h.drop_last(), path, other);
        lemma_page_of_last(h, other);
        lemma_page_of_last(others(h, path), other);
        if !same_path(h.last().0, path) {
            assert(others(h, path).drop_last() =~= others(h.drop_last(), path));
        }
    } else {
        assert(others(h, path) =~= h);
    }
}

/// The last entry counts where no earlier one is for the path.
proof fn lemma_page_of_last(h: Seq<(Seq<u8>, usize)>, path: Seq<u8>)
    ensures
        h.len() > 0 ==> page_of(h, path) == (match page_of(h.drop_last(), path) {
            Some(page) => Some(page),
            None => if same_path(h.last().0, path) {
                Some(h.last().1)
            } else {
                None
            },
        }),
    decreases h.len(),
{
    if h.len() > 1 {
        lemma_page_of_last(h.skip(1), path);
        assert(h.skip(1).drop_last() =~= h.drop_last().skip(1));
        assert(h.drop_last()[0] == h[0]);
        assert(h.skip(1).last() == h.last());
    } else if h.len() == 1 {
        assert(h.skip(1) =~= Seq::empty());
        assert(h.drop_last() =~= Seq::empty());
    }
}

proof fn lemma_others(h: Seq<(Seq<u8>, usize)>, path: Seq<u8>)
    ensures
        others(h, path).len() <= h.len(),
        forall|i: int| 0 <= i < others(h, path).len() ==> !same_path(
            (#[trigger] others(h, path)[i]).0,
            path,
        ),
        forall|i: int|
            0 <= i < others(h, path).len() ==> h.contains(#[trigger] others(h, path)[i]),
        (forall|i: int| 0 <= i < h.len() ==> !same_path((#[trigger] h[i]).0, path)) ==> others(
            h,
            path,
        ) == h,
    decreases h.len(),
{
    if h.len() > 0 {
        let front = h.drop_last();
        lemma_others(front, path);
        assert forall|i: int| 0 <= i < others(h, path).len() implies h.contains(
            #[trigger] others(h, path)[i],
        ) by {
            if i < others(front, path).len() {
                let e = others(front, path)[i];
                assert(front.contains(e));
                let k = choose|k: int| 0 <= k < front.len() && front[k] == e;
                assert(h[k] == e);
            } else {
                assert(h[h.len() - 1] == h.last());
            }
        }
        if forall|i: int| 0 <= i < h.len() ==> !same_path((#[trigger] h[i]).0, path) {
            assert forall|i: int| 0 <= i < front.len() implies !same_path(
                (#[trigger] front[i]).0,
                path,
            ) by {
                assert(h[i] == front[i]);
            }
            assert(!same_path(h[h.len() - 1].0, path));
            assert(front.push(h.last()) =~= h);
        }
    } else {
        assert(others(h, path) =~= h);
    }
}

/// The page a document was left at last is the one that is remembered.
pub proof fn law_set_is_remembered(h: Seq<(Seq<u8>, usize)>, path: Seq<u8>, page: usize)
    ensures
        page_of(visited(h, path, page), path) == Some(page),
        visited(h, path, page).len() > 0,
        visited(h, path, page)[0] == (path, page),
        visited(h, path, page).len() <= HISTORY_MAX,
{
    let all = seq![(path, page)] + others(h, path);
    assert(all[0] == (path, page));
}

/// The place of the first entry for `path`; past the end if there is none.
pub open spec fn entry_place(h: Seq<(Seq<u8>, usize)>, path: Seq<u8>) -> int
    decreases h.len(),
{
    if h.len() == 0 || same_path(h[0].0, path) {
        0
    } else {
        1 + entry_place(h.skip(1), path)
    }
}

proof fn lemma_entry_place(h: Seq<(Seq<u8>, usize)>, path: Seq<u8>)
    ensures
        0 <= entry_place(h, path) <= h.len(),
        forall|i: int| 0 <= i < entry_place(h, path) ==> !same_path((#[trigger] h[i]).0, path),
        entry_place(h, path) < h.len() ==> same_path(h[entry_place(h, path)].0, path) && page_of(
            h,
            path,
        ) == Some(h[entry_place(h, path)].1),
        entry_place(h, path) == h.len() ==> page_of(h, path) is None,
    decreases h.len(),
{
    if h.len() > 0 && !same_path(h[0].0, path) {
        lemma_entry_place(h.skip(1), path);
        assert forall|i: int| 0 <= i < entry_place(h, path) implies !same_path(
            (#[trigger] h[i]).0,
            path,
        ) by {
            if i > 0 {
                assert(h[i] == h.skip(1)[i - 1]);
            }
        }
        if entry_place(h, path) < h.len() {
            assert(h[entry_place(h, path)] == h.skip(1)[entry_place(h, path) - 1]);
        }
    }
}

/// Cutting a history after the first entry for `path` keeps its page.
proof fn lemma_page_of_take(h: Seq<(Seq<u8>, usize)>, n: int, path: Seq<u8>)
    requires
        0 <= n <= h.len(),
        page_of(h, path) is None || entry_place(h, path) < n,
    ensures
        page_of(h.take(n), path) == page_of(h, path),
    decreases h.len(),
{
    lemma_entry_place(h, path);
    if n > 0 && !same_path(h[0].0, path) {
        assert(h.take(n).skip(1) =~= h.skip(1).take(n - 1));
        lemma_page_of_take(h.skip(1), n - 1, path);
    }
}

/// Without another document's entries, one comes as much earlier as there were
/// such entries before it.
proof fn lemma_place_of_others(h: Seq<(Seq<u8>, usize)>, path: Seq<u8>, other: Seq<u8>)
    requires
        !same_path(path, other),
    ensures
        entry_place(others(h, path), other) == others(h.take(entry_place(h, other)), path).len(),
    decreases h.len(),
{
    lemma_entry_place(h, other);
    let p = entry_place(h, other);
    if h.len() > 0 {
        let front = h.drop_last();
        lemma_place_of_others(front, path, other);
        lemma_entry_place(front, other);
        lemma_place_in_front(h, other);
        lemma_place_in_front(others(h, path), other);
        lemma_entry_place(others(front, path), other);
        assert(others(front, path).push(h.last()).drop_last() =~= others(front, path));
        if p < h.len() - 1 {
            assert(h.take(p) =~= front.take(p));
            lemma_others_place_bound(front, path, other);
        } else {
            assert(front.take(front.len() as int) =~= front);
            if p == h.len() {
                assert(h.take(p) =~= h);
            } else {
                assert(h.take(p) =~= front);
            }
        }
    }
}

proof fn lemma_others_place_bound(h: Seq<(Seq<u8>, usize)>, path: Seq<u8>, other: Seq<u8>)
    requires
        !same_path(path, other),
        entry_place(h, other) < h.len(),
    ensures
        entry_place(others(h, path), other) < others(h, path).len(),
{
    lemma_entry_place(h, other);
    lemma_page_of_others(h, path, other);
    lemma_entry_place(others(h, path), other);
}

proof fn lemma_place_in_front(h: Seq<(Seq<u8>, usize)>, path: Seq<u8>)
    ensures
        h.len() > 0 ==> entry_place(h, path) == ({
            let front = entry_place(h.drop_last(), path);
            if front < h.len() - 1 || same_path(h.last().0, path) {
                front
            } else {
                h.len() as int
            }
        }),
    decreases h.len(),
{
    if h.len() > 1 {
        lemma_place_in_front(h.skip(1), path);
        assert(h.skip(1).drop_last() =~= h.drop_last().skip(1));
        assert(h.skip(1).last() == h.last());
        assert(h.drop_last()[0] == h[0]);
        lemma_entry_place(h.drop_last(), path);
    } else if h.len() == 1 {
        assert(h.last() == h[0]);
        assert(entry_place(h.skip(1), path) == 0);
        assert(entry_place(h.drop_last(), path) == 0);
    }
}

/// Every other document keeps its page, unless there is no room for it: as
/// many other documents come before it as fit beside the new one.
pub proof fn law_set_keeps_the_others(
    h: Seq<(Seq<u8>, usize)>,
    path: Seq<u8>,
    page: usize,
    other: Seq<u8>,
)
    requires
        !same_path(path, other),
        page_of(h, other) is None || others(h.take(entry_place(h, other)), path).len() + 1
            < HISTORY_MAX,
    ensures
        page_of(visited(h, path, page), other) == page_of(h, other),
{
    let rest = others(h, path);
    lemma_page_of_others(h, path, other);
    lemma_place_of_others(h, path, other);
    let all = seq![(path, page)] + rest;
    assert(all.skip(1) =~= rest);
    assert(all[0] == (path, page));
    assert(entry_place(all, other) == 1 + entry_place(rest, other));
    if all.len() > HISTORY_MAX {
        lemma_page_of_take(all, HISTORY_MAX as int, other);
    }
}

/// A visit makes a history forget one document at most: the oldest of a full
/// history, when a document comes in that it does not hold.
pub proof fn law_set_forgets_only_the_oldest(
    h: Seq<(Seq<u8>, usize)>,
    path: Seq<u8>,
    page: usize,
    other: Seq<u8>,
)
    requires
        h.len() <= HISTORY_MAX,
        !same_path(path, other),
        !(h.len() == HISTORY_MAX && entry_place(h, path) == h.len() && entry_place(h, other)
            == h.len() - 1),
    ensures
        page_of(visited(h, path, page), other) == page_of(h, other),
{
    let p = entry_place(h, other);
    lemma_entry_place(h, other);
    lemma_entry_place(h, path);
    lemma_others(h.take(p), path);
    if p < h.len() && p == HISTORY_MAX - 1 {
        let q = entry_place(h, path);
        assert(same_path(h[p].0, other) && same_path(h[q].0, path));
        assert(q < p);
        lemma_others_shorter(h.take(p), path, q);
    }
    law_set_keeps_the_others(h, path, page, other);
}

proof fn lemma_others_shorter(h: Seq<(Seq<u8>, usize)>, path: Seq<u8>, q: int)
    requires
        0 <= q < h.len(),
        same_path(h[q].0, path),
    ensures
        others(h, path).len() < h.len(),
    decreases h.len(),
{
    lemma_others(h.drop_last(), path);
    if q < h.len() - 1 {
        assert(h.drop_last()[q] == h[q]);
        lemma_others_shorter(h.drop_last(), path, q);
    }
}

/// Whether every document is remembered once.
pub open spec fn distinct(h: Seq<(Seq<u8>, usize)>) -> bool {
    forall|i: int, j: int|
        0 <= i < j < h.len() ==> !same_path((#[trigger] h[i]).0, (#[trigger] h[j]).0)
}

/// A history that remembers every document once still does after a visit.
pub proof fn law_set_keeps_documents_distinct(
    h: Seq<(Seq<u8>, usize)>,
    path: Seq<u8>,
    page: usize,
)
    requires
        distinct(h),
    ensures
        distinct(visited(h, path, page)),
{
    lemma_first_and_others_distinct(h, path, page);
}

proof fn lemma_first_and_others_distinct(h: Seq<(Seq<u8>, usize)>, path: Seq<u8>, page: usize)
    requires
        distinct(h),
    ensures
        distinct(seq![(path, page)] + others(h, path)),
{
    lemma_others(h, path);
    lemma_others_distinct(h, path);
    let all = seq![(path, page)] + others(h, path);
    assert forall|i: int, j: int| 0 <= i < j < all.len() implies !same_path(
        (#[trigger] all[i]).0,
        (#[trigger] all[j]).0,
    ) by {
        assert(all[j] == others(h, path)[j - 1]);
        if i > 0 {
            assert(all[i] == others(h, path)[i - 1]);
        }
    }
}

proof fn lemma_others_distinct(h: Seq<(Seq<u8>, usize)>, path: Seq<u8>)
    requires
        distinct(h),
    ensures
        distinct(others(h, path)),
    decreases h.len(),
{
    if h.len() > 0 {
        let front = h.drop_last();
        assert forall|i: int, j: int| 0 <= i < j < front.len() implies !same_path(
            (#[trigger] front[i]).0,
            (#[trigger] front[j]).0,
        ) by {
            assert(front[i] == h[i] && front[j] == h[j]);
        }
        lemma_others_distinct(front, path);
        lemma_others(front, path);
        let list = others(h, path);
        assert forall|i: int, j: int| 0 <= i < j < list.len() implies !same_path(
            (#[trigger] list[i]).0,
            (#[trigger] list[j]).0,
        ) by {
            let less = others(front, path);
            assert(list[i] == less[i]);
            if j < less.len() {
                assert(list[j] == less[j]);
            } else {
                assert(front.contains(less[i]));
                let k = choose|k: int| 0 <= k < front.len() && front[k] == less[i];
                assert(h[k] == less[i] && h[h.len() - 1] == list[j]);
            }
        }
    }
}

/// The history `h` after a run of visits.
pub open spec fn after_visits(
    h: Seq<(Seq<u8>, usize)>,
    visits: Seq<(Seq<u8>, usize)>,
) -> Seq<(Seq<u8>, usize)>
    decreases visits.len(),
{
    if visits.len() == 0 {
        h
    } else {
        visited(after_visits(h, visits.drop_last()), visits.last().0, visits.last().1)
    }
}

/// Whether the visit at `i` is the last one to its document.
pub open spec fn is_last_visit(visits: Seq<(Seq<u8>, usize)>, i: int) -> bool {
    forall|j: int| i < j < visits.len() ==> !same_path((#[trigger] visits[j]).0, visits[i].0)
}

/// The last visit to each document, the latest of them first.
pub open spec fn last_visits(visits: Seq<(Seq<u8>, usize)>) -> Seq<(Seq<u8>, usize)>
    decreases visits.len(),
{
    if visits.len() == 0 {
        Seq::empty()
    } else if is_last_visit(visits, 0) {
        last_visits(visits.skip(1)).push(visits[0])
    } else {
        last_visits(visits.skip(1))
    }
}

/// After any run of visits, a history that was empty holds the documents that
/// were visited last, as many as it can: each with the page of its last visit,
/// ordered by that visit, the latest first.
pub proof fn law_history_holds_the_latest_documents(visits: Seq<(Seq<u8>, usize)>)
    ensures
        after_visits(Seq::empty(), visits) == capped(last_visits(visits)),
        after_visits(Seq::empty(), visits).len() == (if last_visits(visits).len() < HISTORY_MAX {
            last_visits(visits).len() as int
        } else {
            HISTORY_MAX as int
        }),
        distinct(after_visits(Seq::empty(), visits)),
    decreases visits.len(),
{
    lemma_last_visits_distinct(visits);
    if visits.len() > 0 {
        let front = visits.drop_last();
        let (path, page) = visits.last();
        law_history_holds_the_latest_documents(front);
        lemma_last_visits_distinct(front);
        assert(visits =~= front.push(visits.last()));
        lemma_last_visits_push(front, visits.last());
        lemma_visit_of_capped(last_visits(front), path, page);
    }
}

/// A visit more: it comes first, and earlier ones to its document are no
/// longer the last.
proof fn lemma_last_visits_push(visits: Seq<(Seq<u8>, usize)>, visit: (Seq<u8>, usize))
    ensures
        last_visits(visits.push(visit)) == seq![visit] + others(last_visits(visits), visit.0),
    decreases visits.len(),
{
    let more = visits.push(visit);
    if visits.len() == 0 {
        assert(more.skip(1) =~= Seq::empty());
        assert(last_visits(more.skip(1)) =~= Seq::empty());
        assert(more[0] == visit);
        assert(is_last_visit(more, 0));
        assert(last_visits(more) =~= seq![visit]);
        assert(seq![visit] + others(last_visits(visits), visit.0) =~= seq![visit]);
    } else {
        let rest = visits.skip(1);
        lemma_last_visits_push(rest, visit);
        assert(more.skip(1) =~= rest.push(visit));
        assert(more[0] == visits[0]);
        assert(is_last_visit(more, 0) <==> is_last_visit(visits, 0) && !same_path(
            visit.0,
            visits[0].0,
        )) by {
            assert(more[visits.len() as int] == visit);
            if is_last_visit(more, 0) {
                assert forall|j: int| 0 < j < visits.len() implies !same_path(
                    (#[trigger] visits[j]).0,
                    visits[0].0,
                ) by {
                    assert(more[j] == visits[j]);
                }
            }
            if is_last_visit(visits, 0) && !same_path(visit.0, visits[0].0) {
                assert forall|j: int| 0 < j < more.len() implies !same_path(
                    (#[trigger] more[j]).0,
                    more[0].0,
                ) by {
                    if j < visits.len() {
                        assert(more[j] == visits[j]);
                    }
                }
            }
        }
        let kept = last_visits(rest);
        assert(kept.push(visits[0]).drop_last() =~= kept);
        assert((seq![visit] + others(kept, visit.0)).push(visits[0]) =~= seq![visit] + others(
            kept,
            visit.0,
        ).push(visits[0]));
    }
}

proof fn lemma_last_visits_distinct(visits: Seq<(Seq<u8>, usize)>)
    ensures
        distinct(last_visits(visits)),
    decreases visits.len(),
{
    if visits.len() > 0 {
        let front = visits.drop_last();
        let (path, page) = visits.last();
        lemma_last_visits_distinct(front);
        assert(visits =~= front.push(visits.last()));
        lemma_last_visits_push(front, visits.last());
        lemma_first_and_others_distinct(last_visits(front), path, page);
    }
}

proof fn lemma_others_joined(
    a: Seq<(Seq<u8>, usize)>,
    b: Seq<(Seq<u8>, usize)>,
    path: Seq<u8>,
)
    ensures
        others(a + b, path) == others(a, path) + others(b, path),
    decreases b.len(),
{
    if b.len() == 0 {
        assert(a + b =~= a);
        assert(others(a, path) + others(b, path) =~= others(a, path));
    } else {
        assert((a + b).drop_last() =~= a + b.drop_last());
        assert((a + b).last() == b.last());
        lemma_others_joined(a, b.drop_last(), path);
        assert((others(a, path) + others(b.drop_last(), path)).push(b.last()) =~= others(a, path)
            + others(b.drop_last(), path).push(b.last()));
    }
}

/// At most one entry of a history that remembers every document once is for
/// `path`.
proof fn lemma_others_nearly_all(h: Seq<(Seq<u8>, usize)>, path: Seq<u8>)
    requires
        distinct(h),
    ensures
        others(h, path).len() + 1 >= h.len(),
    decreases h.len(),
{
    if h.len() > 0 {
        let front = h.drop_last();
        if same_path(h.last().0, path) {
            assert forall|i: int| 0 <= i < front.len() implies !same_path(
                (#[trigger] front[i]).0,
                path,
            ) by {
                assert(front[i] == h[i]);
                assert(!same_path(h[i].0, h[h.len() - 1].0));
            }
            lemma_others(front, path);
        } else {
            assert forall|i: int, j: int| 0 <= i < j < front.len() implies !same_path(
                (#[trigger] front[i]).0,
                (#[trigger] front[j]).0,
            ) by {
                assert(front[i] == h[i] && front[j] == h[j]);
            }
            lemma_others_nearly_all(front, path);
        }
    }
}

/// What was forgotten before a visit would be forgotten after it too.
proof fn lemma_visit_of_capped(h: Seq<(Seq<u8>, usize)>, path: Seq<u8>, page: usize)
    requires
        distinct(h),
    ensures
        visited(capped(h), path, page) == capped(seq![(path, page)] + others(h, path)),
{
    if h.len() > HISTORY_MAX {
        let a = h.take(HISTORY_MAX as int);
        let b = h.skip(HISTORY_MAX as int);
        assert(h =~= a + b);
        lemma_others_joined(a, b, path);
        assert forall|i: int, j: int| 0 <= i < j < a.len() implies !same_path(
            (#[trigger] a[i]).0,
            (#[trigger] a[j]).0,
        ) by {
            assert(a[i] == h[i] && a[j] == h[j]);
        }
        lemma_others_nearly_all(a, path);
        let first = seq![(path, page)];
        assert(capped(first + others(a, path)) =~= capped(first + others(h, path)));
    }
}

/// Whether an entry survives in the history file: its path is UTF-8 and does
/// not span lines.
pub open spec fn survives(entry: (Seq<u8>, usize)) -> bool {
    &&& valid_utf8(entry.0)
    &&& forall|i: int| 0 <= i < shown(entry.0).len() ==> shown(entry.0)[i] != '\n'
}

proof fn lemma_line_of_entry(entry: (Seq<u8>, usize))
    requires
        survives(entry),
    ensures
        line_entry(entry_line(entry)) == Some(entry),
        strip_return(entry_line(entry)) == entry_line(entry),
        forall|i: int| 0 <= i < entry_line(entry).len() ==> entry_line(entry)[i] != '\n',
{
    let line = entry_line(entry);
    let text = shown(entry.0);
    let page = decimal(entry.1 as nat);
    law_number_of_decimal(entry.1);
    lemma_last_place(line, '\t');
    let tab = last_place(line, '\t');
    assert(line[text.len() as int] == '\t');
    assert forall|i: int| text.len() < i < line.len() implies is_digit(#[trigger] line[i]) by {
        assert(line[i] == page[i - text.len() - 1]);
    }
    assert(tab == text.len());
    assert(line.skip(tab + 1) =~= page);
    assert(line.take(tab) =~= text);
    decode_utf8_encode_utf8(entry.0);
    assert(is_digit(line[line.len() - 1]));
    assert forall|i: int| 0 <= i < line.len() implies line[i] != '\n' by {
        if i < text.len() {
            assert(line[i] == text[i]);
        }
    }
}

proof fn lemma_line_len_is(s: Seq<char>, n: int)
    requires
        0 <= n < s.len(),
        s[n] == '\n',
        forall|i: int| 0 <= i < n ==> s[i] != '\n',
    ensures
        line_len(s) == n,
{
    lemma_line_len(s);
}

/// Whatever follows the first entry in the file follows it in the history.
proof fn lemma_read_first(entry: (Seq<u8>, usize), rest: Seq<char>)
    requires
        survives(entry),
    ensures
        line_entries(lines(entry_line(entry).push('\n') + rest)) == seq![entry] + line_entries(
            lines(rest),
        ),
{
    let line = entry_line(entry);
    let s = line.push('\n') + rest;
    lemma_line_of_entry(entry);
    lemma_line_len_is(s, line.len() as int);
    assert(s.take(line.len() as int) =~= line);
    assert(s.skip(line.len() as int + 1) =~= rest);
    let all = lines(s);
    assert(all == seq![line] + lines(rest));
    assert(all[0] == line);
    assert(all.skip(1) =~= lines(rest));
}

proof fn lemma_file_text_first(h: Seq<(Seq<u8>, usize)>)
    requires
        h.len() > 0,
    ensures
        file_text(h) == entry_line(h[0]).push('\n') + file_text(h.skip(1)),
    decreases h.len(),
{
    if h.len() == 1 {
        assert(h.drop_last() =~= Seq::empty());
        assert(h.skip(1) =~= Seq::empty());
        assert(file_text(h.drop_last()) =~= Seq::empty());
        assert(file_text(h) =~= entry_line(h[0]).push('\n') + file_text(h.skip(1)));
    } else {
        lemma_file_text_first(h.drop_last());
        assert(h.drop_last().skip(1) =~= h.skip(1).drop_last());
        assert(h.skip(1).last() == h.last());
        assert(h.drop_last()[0] == h[0]);
        assert(file_text(h) =~= entry_line(h[0]).push('\n') + file_text(h.skip(1)));
    }
}

/// A saved history is loaded as it was: the same documents, in the same
/// order, at the same pages.
pub proof fn law_saved_history_is_loaded(h: Seq<(Seq<u8>, usize)>)
    requires
        forall|i: int| 0 <= i < h.len() ==> survives(#[trigger] h[i]),
    ensures
        line_entries(lines(file_text(h))) == h,
    decreases h.len(),
{
    if h.len() == 0 {
        assert(lines(file_text(h)) =~= Seq::empty());
        assert(line_entries(lines(file_text(h))) =~= h);
    } else {
        assert(survives(h[0]));
        assert forall|i: int| 0 <= i < h.skip(1).len() implies survives(
            #[trigger] h.skip(1)[i],
        ) by {
            assert(h.skip(1)[i] == h[i + 1]);
        }
        law_saved_history_is_loaded(h.skip(1));
        lemma_file_text_first(h);
        lemma_read_first(h[0], file_text(h.skip(1)));
        assert(seq![h[0]] + h.skip(1) =~= h);
    }
}

/// The page of a document is that of the first entry with its path.
pub proof fn law_page_is_that_of_the_first_entry(
    h: Seq<(Seq<u8>, usize)>,
    path: Seq<u8>,
    i: int,
)
    requires
        0 <= i < h.len(),
        same_path(h[i].0, path),
        forall|j: int| 0 <= j < i ==> !same_path((#[trigger] h[j]).0, path),
    ensures
        page_of(h, path) == Some(h[i].1),
    decreases h.len(),
{
    if i > 0 {
        assert(!same_path(h[0].0, path));
        let rest = h.skip(1);
        assert(rest[i - 1] == h[i]);
        assert forall|j: int| 0 <= j < i - 1 implies !same_path((#[trigger] rest[j]).0, path) by {
            assert(rest[j] == h[j + 1]);
        }
        law_page_is_that_of_the_first_entry(rest, path, i - 1);
    }
}

/// A document that no entry is for has no page.
pub proof fn law_unknown_document_has_no_page(h: Seq<(Seq<u8>, usize)>, path: Seq<u8>)
    requires
        forall|j: int| 0 <= j < h.len() ==> !same_path((#[trigger] h[j]).0, path),
    ensures
        page_of(h, path) is None,
    decreases h.len(),
{
    if h.len() > 0 {
        assert(!same_path(h[0].0, path));
        let rest = h.skip(1);
        assert forall|j: int| 0 <= j < rest.len() implies !same_path(
            (#[trigger] rest[j]).0,
            path,
        ) by {
            assert(rest[j] == h[j + 1]);
        }
        law_unknown_document_has_no_page(rest, path);
    }
}

/// However a path is written, its page is the same.
pub proof fn law_same_path_same_page(h: Seq<(Seq<u8>, usize)>, a: Seq<u8>, b: Seq<u8>)
    requires
        same_path(a, b),
    ensures
        page_of(h, a) == page_of(h, b),
    decreases h.len(),
{
    if h.len() > 0 {
        law_same_path_same_page(h.skip(1), a, b);
    }
}

/// A history holds fifty documents. While it holds fewer, a visit forgets
/// none of the others.
pub proof fn law_visit_keeps_the_others_with_room(
    h: Seq<(Seq<u8>, usize)>,
    path: Seq<u8>,
    page: usize,
    other: Seq<u8>,
)
    requires
        !same_path(path, other),
    ensures
        visited(h, path, page).len() <= 50,
        h.len() < 50 ==> page_of(visited(h, path, page), other) == page_of(h, other),
{
    if h.len() < 50 {
        lemma_entry_place(h, other);
        law_set_forgets_only_the_oldest(h, path, page, other);
    }
}

/// A line is a path and, after its last tab, a page; blanks around the page
/// do not count. A line without a tab, or without a number after the last, is
/// no entry.
pub proof fn law_line_holds_a_path_and_a_page(path: Seq<char>, text: Seq<char>)
    requires
        forall|i: int| 0 <= i < text.len() ==> #[trigger] text[i] != '\t',
    ensures
        line_entry(text) is None,
        number(trim(text)) is None ==> line_entry(path.push('\t') + text) is None,
        number(trim(text)) matches Some(page) ==> line_entry(path.push('\t') + text) == Some(
            (encode_utf8(path), page),
        ),
{
    let line = path.push('\t') + text;
    lemma_last_place(text, '\t');
    lemma_last_place(line, '\t');
    let n = last_place(line, '\t');
    assert(line[path.len() as int] == '\t');
    if n > path.len() {
        assert(line[n] == text[n - path.len() - 1]);
    }
    assert(line.take(n) =~= path);
    assert(line.skip(n + 1) =~= text);
}

/// Lines are read one by one: one that holds no entry spoils no other.
pub proof fn law_lines_are_read_one_by_one(a: Seq<Seq<char>>, b: Seq<Seq<char>>)
    ensures
        line_entries(a + b) == line_entries(a) + line_entries(b),
        a.len() == 1 ==> line_entries(a) == (match line_entry(a[0]) {
            Some(entry) => seq![entry],
            None => Seq::empty(),
        }),
    decreases a.len(),
{
    if a.len() == 0 {
        assert(a + b =~= b);
        assert(line_entries(a) + line_entries(b) =~= line_entries(b));
    } else {
        law_lines_are_read_one_by_one(a.skip(1), b);
        assert((a + b).skip(1) =~= a.skip(1) + b);
        assert((a + b)[0] == a[0]);
        if a.len() == 1 {
            assert(line_entries(a.skip(1)) =~= Seq::empty());
        }
        assert(line_entries(a + b) =~= line_entries(a) + line_entries(b));
    }
}

/// Each entry is written as a line of its own, in the order of the history:
/// its path, a tab, its page and a line feed.
pub proof fn law_entries_are_written_one_by_one(
    h: Seq<(Seq<u8>, usize)>,
    path: Seq<u8>,
    page: usize,
)
    ensures
        file_text(h.push((path, page))) == file_text(h) + shown(path) + seq!['\t'] + decimal(
            page as nat,
        ) + seq!['\n'],
        file_text(Seq::empty()).len() == 0,
{
    let all = h.push((path, page));
    assert(all.drop_last() =~= h);
    assert(file_text(all) =~= file_text(h) + shown(path) + seq!['\t'] + decimal(page as nat)
        + seq!['\n']);
}

} // verus!
