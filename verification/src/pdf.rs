//! What is read from a document: its outline, its pixels and the places of its
//! text.
use vstd::prelude::*;
use vstd::slice::{slice_subrange, slice_to_vec};

use crate::double::Double;
use crate::paths::{shown, FilePath};
use crate::text::{
    chars_of, cuts_core, is_blank, is_core, law_trim_takes_the_core, string_of, trim, trimmed,
};

verus! {

/// A text match on a page, in points from the top-left corner of the page.
#[derive(Debug, Clone, Copy)]
pub struct MatchRect {
    pub x: Double,
    pub y: Double,
    pub w: Double,
    pub h: Double,
}

impl MatchRect {
    /// Whether two matches have the same place and size, as numbers.
    pub open spec fn same(self, other: MatchRect) -> bool {
        self.x.same(other.x) && self.y.same(other.y) && self.w.same(other.w) && self.h.same(
            other.h,
        )
    }
}

/// Matches are equal where their numbers are.
impl PartialEq for MatchRect {
    fn eq(&self, other: &MatchRect) -> (r: bool) {
        self.x.equals(other.x) && self.y.equals(other.y) && self.w.equals(other.w)
            && self.h.equals(other.h)
    }
}

impl vstd::std_specs::cmp::PartialEqSpecImpl for MatchRect {
    open spec fn obeys_eq_spec() -> bool {
        true
    }

    open spec fn eq_spec(&self, other: &MatchRect) -> bool {
        self.same(*other)
    }
}

/// An entry of the table of contents.
#[derive(Debug)]
pub struct TocEntry {
    pub title: String,
    /// The page it leads to, counted from 0.
    pub page: usize,
    /// How many entries it is nested in.
    pub depth: usize,
}

impl Clone for TocEntry {
    fn clone(&self) -> (r: TocEntry)
        ensures
            r == *self,
    {
        TocEntry { title: self.title.clone(), page: self.page, depth: self.depth }
    }
}

/// An entry of the table of contents, with its title as characters.
pub struct EntryView {
    pub title: Seq<char>,
    pub page: usize,
    pub depth: usize,
}

impl View for TocEntry {
    type V = EntryView;

    open spec fn view(&self) -> EntryView {
        EntryView { title: self.title@, page: self.page, depth: self.depth }
    }
}

/// The entries, with their titles as characters.
pub open spec fn entry_views(entries: Seq<TocEntry>) -> Seq<EntryView> {
    entries.map_values(|e: TocEntry| e@)
}

/// Where an outline item leads. Page numbers count from 1; one below 1 is no
/// page. A name comes with the page number that the document has for it.
#[derive(Debug, Clone, Copy)]
pub enum Target {
    /// Nowhere in the document.
    Nowhere,
    /// To a page or, where the number is none, to a name.
    Page { number: i32, named: Option<i32> },
    /// To a name.
    Named(Option<i32>),
}

/// The page that the name leads to, counted from 0.
pub open spec fn named_page(number: Option<i32>) -> Option<usize> {
    match number {
        Some(n) => if n > 0 {
            Some((n - 1) as usize)
        } else {
            None
        },
        None => None,
    }
}

/// The page that a target leads to, counted from 0.
pub open spec fn target_page(target: Target) -> Option<usize> {
    match target {
        Target::Nowhere => None,
        Target::Page { number, named } => if number > 0 {
            Some((number - 1) as usize)
        } else {
            named_page(named)
        },
        Target::Named(named) => named_page(named),
    }
}

/// What an outline item is called and where it leads.
#[derive(Debug)]
pub struct OutlineItem {
    pub title: String,
    pub target: Target,
}

/// A node of a document's outline: its item, if it has one, and the nodes
/// below it.
#[derive(Debug)]
pub struct OutlineNode {
    pub item: Option<OutlineItem>,
    pub children: Vec<OutlineNode>,
}

/// The entry for the item of a node, if it has one.
pub open spec fn own_entry(node: OutlineNode, depth: int) -> Seq<EntryView> {
    match node.item {
        Some(item) => seq![
            EntryView {
                title: item.title@,
                page: match target_page(item.target) {
                    Some(page) => page,
                    None => 0,
                },
                depth: depth as usize,
            },
        ],
        None => Seq::empty(),
    }
}

/// The entries of a node and of the nodes below it, in reading order.
pub open spec fn node_entries(node: OutlineNode, depth: int) -> Seq<EntryView>
    decreases node,
{
    own_entry(node, depth) + outline_entries(node.children@, depth + 1)
}

/// The entries of `nodes` and of the nodes below them, in reading order.
pub open spec fn outline_entries(nodes: Seq<OutlineNode>, depth: int) -> Seq<EntryView>
    decreases nodes,
{
    if nodes.len() == 0 {
        Seq::empty()
    } else {
        outline_entries(nodes.drop_last(), depth) + node_entries(nodes.last(), depth)
    }
}

/// How many levels of nodes there are.
pub open spec fn levels(nodes: Seq<OutlineNode>) -> nat
    decreases nodes,
{
    if nodes.len() == 0 {
        0
    } else {
        let front = levels(nodes.drop_last());
        let last = 1 + levels(nodes.last().children@);
        if front < last {
            last
        } else {
            front
        }
    }
}

proof fn lemma_levels(nodes: Seq<OutlineNode>, i: int)
    requires
        0 <= i < nodes.len(),
    ensures
        1 + levels(nodes[i].children@) <= levels(nodes),
    decreases nodes.len(),
{
    if i < nodes.len() - 1 {
        lemma_levels(nodes.drop_last(), i);
        assert(nodes.drop_last()[i] == nodes[i]);
    }
}

fn named_page_of(number: Option<i32>) -> (r: Option<usize>)
    ensures
        r == named_page(number),
{
    match number {
        Some(n) => if n > 0 {
            Some((n - 1) as usize)
        } else {
            None
        },
        None => None,
    }
}

fn target_page_of(target: Target) -> (r: Option<usize>)
    ensures
        r == target_page(target),
{
    match target {
        Target::Nowhere => None,
        Target::Page { number, named } => if number > 0 {
            Some((number - 1) as usize)
        } else {
            named_page_of(named)
        },
        Target::Named(named) => named_page_of(named),
    }
}

/// Append the entries of `nodes` and of the nodes below them, in reading
/// order; those of `nodes` themselves are at `depth`.
fn walk_toc(nodes: &Vec<OutlineNode>, depth: usize, entries: &mut Vec<TocEntry>)
    requires
        depth + levels(nodes@) <= usize::MAX,
    ensures
        entry_views(final(entries)@) == entry_views(old(entries)@) + outline_entries(
            nodes@,
            depth as int,
        ),
    decreases *nodes,
{
    let mut i: usize = 0;
    let ghost start = entry_views(entries@);
    assert(nodes@.take(0) =~= Seq::empty());
    assert(start + outline_entries(nodes@.take(0), depth as int) =~= start);
    while i < nodes.len()
        invariant
            i <= nodes@.len(),
            depth + levels(nodes@) <= usize::MAX,
            entry_views(entries@) == start + outline_entries(nodes@.take(i as int), depth as int),
        decreases nodes@.len() - i,
    {
        let node = &nodes[i];
        let ghost before = entry_views(entries@);
        if let Some(item) = &node.item {
            let page: usize = match target_page_of(item.target) {
                Some(page) => page,
                None => 0,
            };
            let ghost held = entries@;
            entries.push(TocEntry { title: item.title.clone(), page, depth });
            assert(entry_views(entries@) =~= entry_views(held).push(entries@.last()@));
        }
        assert(entry_views(entries@) =~= before + own_entry(*node, depth as int));
        proof {
            lemma_levels(nodes@, i as int);
        }
        if node.children.len() > 0 {
            walk_toc(&node.children, depth + 1, entries);
        } else {
            assert(node.children@ =~= Seq::empty());
            assert(entry_views(entries@) =~= entry_views(entries@) + outline_entries(
                node.children@,
                depth + 1,
            ));
        }
        assert(nodes@.take(i + 1).drop_last() =~= nodes@.take(i as int));
        assert(nodes@.take(i + 1).last() == *node);
        assert(entry_views(entries@) =~= start + (outline_entries(
            nodes@.take(i as int),
            depth as int,
        ) + node_entries(*node, depth as int)));
        i += 1;
    }
    assert(nodes@.take(i as int) =~= nodes@);
}

/// The entries that are kept: those with a title, trimmed, on pages of the
/// document.
pub open spec fn kept_entries(entries: Seq<EntryView>, last: usize) -> Seq<EntryView>
    decreases entries.len(),
{
    if entries.len() == 0 {
        Seq::empty()
    } else {
        let front = kept_entries(entries.drop_last(), last);
        let entry = entries.last();
        if trim(entry.title).len() == 0 {
            front
        } else {
            front.push(
                EntryView {
                    title: trim(entry.title),
                    page: if entry.page < last {
                        entry.page
                    } else {
                        last
                    },
                    depth: entry.depth,
                },
            )
        }
    }
}

/// What the reader needs of an open document.
#[derive(Debug)]
pub struct PdfDoc {
    /// The number of pages that the document reports.
    pub page_count: i32,
    pub outline: Vec<OutlineNode>,
}

impl PdfDoc {
    /// How many pages there are.
    pub open spec fn pages(self) -> usize {
        if self.page_count > 0 {
            self.page_count as usize
        } else {
            0
        }
    }

    /// The last page, counted from 0.
    pub open spec fn last_page(self) -> usize {
        if self.page_count > 0 {
            (self.page_count - 1) as usize
        } else {
            0
        }
    }

    /// How many pages there are. A document that reports a negative number
    /// has none.
    pub fn n_pages(&self) -> (r: usize)
        ensures
            r == self.pages(),
    {
        if self.page_count > 0 {
            self.page_count as usize
        } else {
            0
        }
    }

    /// The table of contents, flattened. Titles are trimmed, entries without a
    /// title are left out, and every page is one of the document.
    pub fn toc(&self) -> (r: Vec<TocEntry>)
        requires
            levels(self.outline@) <= usize::MAX,
        ensures
            entry_views(r@) == kept_entries(outline_entries(self.outline@, 0), self.last_page()),
            forall|i: int| 0 <= i < r@.len() ==> (#[trigger] r@[i]).page <= self.last_page(),
            forall|i: int| 0 <= i < r@.len() ==> (#[trigger] r@[i]).title@.len() > 0,
    {
        let mut all: Vec<TocEntry> = Vec::new();
        walk_toc(&self.outline, 0, &mut all);
        let ghost raw = entry_views(all@);
        assert(raw =~= outline_entries(self.outline@, 0));
        let last: usize = self.n_pages().saturating_sub(1);
        let mut out: Vec<TocEntry> = Vec::new();
        let mut i: usize = 0;
        assert(raw.take(0) =~= Seq::empty());
        assert(entry_views(out@) =~= Seq::empty());
        while i < all.len()
            invariant
                i <= all@.len(),
                raw == entry_views(all@),
                last == self.last_page(),
                entry_views(out@) == kept_entries(raw.take(i as int), last),
                forall|k: int| 0 <= k < out@.len() ==> (#[trigger] out@[k]).page <= last,
                forall|k: int| 0 <= k < out@.len() ==> (#[trigger] out@[k]).title@.len() > 0,
            decreases all@.len() - i,
        {
            let entry = &all[i];
            assert(raw.take(i + 1).drop_last() =~= raw.take(i as int));
            assert(raw.take(i + 1).last() == entry@);
            let chars = chars_of(entry.title.as_str());
            let title = trimmed(chars.as_slice());
            if title.len() > 0 {
                let ghost before = out@;
                out.push(
                    TocEntry {
                        title: string_of(title),
                        page: if entry.page < last {
                            entry.page
                        } else {
                            last
                        },
                        depth: entry.depth,
                    },
                );
                assert(entry_views(out@) =~= entry_views(before).push(out@.last()@));
            }
            i += 1;
        }
        assert(raw.take(i as int) =~= raw);
        out
    }
}

/// No entry is deeper than the outline has levels.
pub proof fn law_depth_below_levels(nodes: Seq<OutlineNode>, depth: int, i: int)
    requires
        0 <= depth,
        depth + levels(nodes) <= usize::MAX,
        0 <= i < outline_entries(nodes, depth).len(),
    ensures
        depth <= outline_entries(nodes, depth)[i].depth < depth + levels(nodes),
    decreases nodes,
{
    let front = outline_entries(nodes.drop_last(), depth);
    let node = nodes.last();
    if i < front.len() {
        law_depth_below_levels(nodes.drop_last(), depth, i);
    } else {
        let k = i - front.len();
        let own = own_entry(node, depth);
        assert(outline_entries(nodes, depth) == front + node_entries(node, depth));
        assert(node_entries(node, depth) == own + outline_entries(node.children@, depth + 1));
        if k < own.len() {
            assert(outline_entries(nodes, depth)[i] == own[k]);
        } else {
            law_depth_below_levels(node.children@, depth + 1, k - own.len());
            assert(outline_entries(nodes, depth)[i] == outline_entries(
                node.children@,
                depth + 1,
            )[k - own.len()]);
        }
    }
}

/// The pixels of an image without the padding of its rows: of each `stride`
/// bytes, the first `row`.
pub open spec fn packed(data: Seq<u8>, stride: int, row: int) -> Seq<u8>
    decreases data.len(),
{
    if data.len() == 0 || stride <= 0 || row < 0 {
        Seq::empty()
    } else if data.len() <= stride {
        data.take(
            if row < data.len() {
                row
            } else {
                data.len() as int
            },
        )
    } else {
        data.take(
            if row < stride {
                row
            } else {
                stride
            },
        ) + packed(data.skip(stride), stride, row)
    }
}

/// The bytes of an image, `row` of each `stride`, without the padding.
pub fn pack_rows(data: &[u8], stride: usize, row: usize) -> (r: Vec<u8>)
    requires
        stride > 0,
    ensures
        r@ == packed(data@, stride as int, row as int),
{
    let mut out: Vec<u8> = Vec::new();
    let mut from: usize = 0;
    assert(data@.skip(0) =~= data@);
    assert(out@ + packed(data@, stride as int, row as int) =~= packed(
        data@,
        stride as int,
        row as int,
    ));
    while from < data.len()
        invariant
            stride > 0,
            from <= data@.len(),
            out@ + packed(data@.skip(from as int), stride as int, row as int) == packed(
                data@,
                stride as int,
                row as int,
            ),
        decreases data@.len() - from,
    {
        let left: usize = data.len() - from;
        let chunk: usize = if stride < left {
            stride
        } else {
            left
        };
        let kept: usize = if row < chunk {
            row
        } else {
            chunk
        };
        let ghost rest = data@.skip(from as int);
        let ghost before = out@;
        let mut piece: Vec<u8> = slice_to_vec(slice_subrange(data, from, from + kept));
        assert(piece@ =~= rest.take(kept as int));
        out.append(&mut piece);
        assert(rest.skip(chunk as int) =~= data@.skip(from + chunk));
        assert(packed(rest, stride as int, row as int) =~= rest.take(kept as int) + packed(
            rest.skip(chunk as int),
            stride as int,
            row as int,
        ));
        assert(before + (rest.take(kept as int) + packed(
            rest.skip(chunk as int),
            stride as int,
            row as int,
        )) =~= out@ + packed(rest.skip(chunk as int), stride as int, row as int));
        from += chunk;
    }
    assert(out@ + packed(data@.skip(from as int), stride as int, row as int) =~= out@);
    out
}

/// Rows without padding are packed already.
pub proof fn law_unpadded_rows_are_packed(data: Seq<u8>, stride: int)
    requires
        stride > 0,
    ensures
        packed(data, stride, stride) == data,
    decreases data.len(),
{
    if data.len() > stride {
        law_unpadded_rows_are_packed(data.skip(stride), stride);
        assert(data.take(stride) + data.skip(stride) =~= data);
    } else if data.len() > 0 {
        assert(data.take(data.len() as int) =~= data);
    }
}

/// An image of `height` rows keeps `row` bytes of each.
pub proof fn law_packed_length(data: Seq<u8>, stride: int, row: int, height: nat)
    requires
        0 <= row <= stride,
        stride > 0,
        data.len() == stride * height,
    ensures
        packed(data, stride, row).len() == row * height,
    decreases height,
{
    if height == 0 {
        assert(stride * height == 0) by (nonlinear_arith)
            requires
                height == 0,
        ;
        assert(row * height == 0) by (nonlinear_arith)
            requires
                height == 0,
        ;
    } else {
        let less = (height - 1) as nat;
        assert(stride * height == stride * less + stride) by (nonlinear_arith)
            requires
                height == less + 1,
        ;
        assert(row * height == row * less + row) by (nonlinear_arith)
            requires
                height == less + 1,
        ;
        assert(stride * less >= 0) by (nonlinear_arith)
            requires
                stride > 0,
        ;
        law_packed_length(data.skip(stride), stride, row, less);
        if data.len() == stride {
            assert(data.skip(stride).len() == 0);
            assert(packed(data.skip(stride), stride, row).len() == 0);
        }
    }
}

/// The side of a rendered image in pixels: at least one, and no more than a
/// texture can have.
pub fn image_side(pixels: i32) -> (r: i32)
    ensures
        1 <= r <= 16384,
        1 <= pixels <= 16384 ==> r == pixels,
        pixels < 1 ==> r == 1,
        pixels > 16384 ==> r == 16384,
{
    if pixels < 1 {
        1
    } else if pixels > 16384 {
        16384
    } else {
        pixels
    }
}

/// The URI of a document: `converted`, where the path could be converted to
/// one, and else the path behind the scheme for files.
pub fn document_uri(converted: Option<String>, path: &FilePath) -> (r: String)
    ensures
        match converted {
            Some(uri) => r == uri,
            None => r@ == "file://"@ + shown(path@),
        },
{
    match converted {
        Some(uri) => uri,
        None => {
            let text = path.text();
            "file://".to_owned().concat(text.as_str())
        },
    }
}

/// Whether a match covers an area.
pub open spec fn has_area(rect: MatchRect) -> bool {
    let zero = Double { bits: 0 };
    zero.lt(rect.w) && zero.lt(rect.h)
}

/// The matches that cover an area, in their order.
pub open spec fn with_area(found: Seq<MatchRect>) -> Seq<MatchRect>
    decreases found.len(),
{
    if found.len() == 0 {
        Seq::empty()
    } else if has_area(found.last()) {
        with_area(found.drop_last()).push(found.last())
    } else {
        with_area(found.drop_last())
    }
}

/// The matches on a page that count, of those that were found: those that
/// cover an area.
pub fn kept_matches(found: &[MatchRect]) -> (r: Vec<MatchRect>)
    ensures
        r@ == with_area(found@),
{
    let zero = Double { bits: 0 };
    let mut out: Vec<MatchRect> = Vec::new();
    let mut i: usize = 0;
    assert(found@.take(0) =~= Seq::empty());
    while i < found.len()
        invariant
            i <= found@.len(),
            zero == (Double { bits: 0 }),
            out@ == with_area(found@.take(i as int)),
        decreases found@.len() - i,
    {
        assert(found@.take(i + 1).drop_last() =~= found@.take(i as int));
        let rect = found[i];
        if zero.before(rect.w) && zero.before(rect.h) {
            out.push(rect);
        }
        i += 1;
    }
    assert(found@.take(i as int) =~= found@);
    out
}

/// How many items there are in an outline, at all its levels.
pub open spec fn item_count(nodes: Seq<OutlineNode>) -> nat
    decreases nodes,
{
    if nodes.len() == 0 {
        0
    } else {
        item_count(nodes.drop_last()) + has_item(nodes.last()) + item_count(
            nodes.last().children@,
        )
    }
}

/// 1 for a node with an item, 0 for one without.
pub open spec fn has_item(node: OutlineNode) -> nat {
    if node.item is Some {
        1
    } else {
        0
    }
}

/// Whether `path` leads to a node: each number is the place of a node among
/// its siblings, from the top of the outline down.
pub open spec fn leads_to_node(nodes: Seq<OutlineNode>, path: Seq<int>) -> bool
    decreases path.len(),
{
    &&& path.len() > 0
    &&& 0 <= path[0] < nodes.len()
    &&& path.len() > 1 ==> leads_to_node(nodes[path[0]].children@, path.skip(1))
}

/// The node that `path` leads to.
pub open spec fn node_at(nodes: Seq<OutlineNode>, path: Seq<int>) -> OutlineNode
    decreases path.len(),
{
    if path.len() <= 1 {
        nodes[path[0]]
    } else {
        node_at(nodes[path[0]].children@, path.skip(1))
    }
}

/// How many items a reader passes before the node that `path` leads to: those
/// of the siblings before it with all that is below them, and those of the
/// nodes it lies in.
pub open spec fn items_before(nodes: Seq<OutlineNode>, path: Seq<int>) -> nat
    decreases path.len(),
{
    if path.len() <= 1 {
        item_count(nodes.take(path[0]))
    } else {
        item_count(nodes.take(path[0])) + has_item(nodes[path[0]]) + items_before(
            nodes[path[0]].children@,
            path.skip(1),
        )
    }
}

/// The table of contents has one entry for each item of the outline, however
/// deep it is.
pub proof fn law_every_item_has_an_entry(nodes: Seq<OutlineNode>, depth: int)
    ensures
        outline_entries(nodes, depth).len() == item_count(nodes),
    decreases nodes,
{
    if nodes.len() > 0 {
        law_every_item_has_an_entry(nodes.drop_last(), depth);
        law_every_item_has_an_entry(nodes.last().children@, depth + 1);
        assert(node_entries(nodes.last(), depth) == own_entry(nodes.last(), depth)
            + outline_entries(nodes.last().children@, depth + 1));
    }
}

/// The entries of the first `n` nodes come first, followed by those of the
/// next node.
proof fn lemma_entries_of_take(nodes: Seq<OutlineNode>, depth: int, n: int)
    requires
        0 <= n < nodes.len(),
    ensures
        ({
            let before = outline_entries(nodes.take(n), depth);
            let own = node_entries(nodes[n], depth);
            &&& before.len() + own.len() <= outline_entries(nodes, depth).len()
            &&& forall|i: int|
                0 <= i < own.len() ==> #[trigger] outline_entries(nodes, depth)[before.len() + i]
                    == own[i]
        }),
    decreases nodes.len(),
{
    let before = outline_entries(nodes.take(n), depth);
    let own = node_entries(nodes[n], depth);
    let front = outline_entries(nodes.drop_last(), depth);
    if n == nodes.len() - 1 {
        assert(nodes.take(n) =~= nodes.drop_last());
        assert(outline_entries(nodes, depth) == front + own);
    } else {
        lemma_entries_of_take(nodes.drop_last(), depth, n);
        assert(nodes.drop_last().take(n) =~= nodes.take(n));
        assert(nodes.drop_last()[n] == nodes[n]);
        assert forall|i: int| 0 <= i < own.len() implies #[trigger] outline_entries(
            nodes,
            depth,
        )[before.len() + i] == own[i] by {
            assert(front[before.len() + i] == own[i]);
            assert(outline_entries(nodes, depth)[before.len() + i] == front[before.len() + i]);
        }
    }
}

/// The entry of every item stands where a reader of the outline comes to it:
/// after the entries of the nodes it lies in and of all that comes before it.
/// It has the item's title, as many levels above it as the outline has, and
/// the page before the number that the item, or else its name, leads to.
pub proof fn law_entry_stands_where_its_node_is_read(
    nodes: Seq<OutlineNode>,
    depth: int,
    path: Seq<int>,
)
    requires
        leads_to_node(nodes, path),
        node_at(nodes, path).item is Some,
        0 <= depth,
        depth + path.len() <= usize::MAX,
    ensures
        items_before(nodes, path) < outline_entries(nodes, depth).len(),
        ({
            let item = node_at(nodes, path).item->0;
            let entry = outline_entries(nodes, depth)[items_before(nodes, path) as int];
            &&& entry.title == item.title@
            &&& entry.depth == depth + path.len() - 1
            &&& match item.target {
                Target::Nowhere => entry.page == 0,
                Target::Page { number, named } => if number >= 1 {
                    entry.page + 1 == number
                } else if named is Some && named->0 >= 1 {
                    entry.page + 1 == named->0
                } else {
                    entry.page == 0
                },
                Target::Named(named) => if named is Some && named->0 >= 1 {
                    entry.page + 1 == named->0
                } else {
                    entry.page == 0
                },
            }
        }),
    decreases path.len(),
{
    let n = path[0];
    let node = nodes[n];
    let before = outline_entries(nodes.take(n), depth);
    let own = node_entries(node, depth);
    let below = outline_entries(node.children@, depth + 1);
    law_every_item_has_an_entry(nodes.take(n), depth);
    law_every_item_has_an_entry(node.children@, depth + 1);
    lemma_entries_of_take(nodes, depth, n);
    assert(own == own_entry(node, depth) + below);
    if path.len() == 1 {
        assert(own[0] == own_entry(node, depth)[0]);
        assert(outline_entries(nodes, depth)[before.len() + 0int] == own[0]);
    } else {
        let rest = path.skip(1);
        law_entry_stands_where_its_node_is_read(node.children@, depth + 1, rest);
        let k = items_before(node.children@, rest) as int;
        assert(own[has_item(node) + k] == below[k]);
        assert(outline_entries(nodes, depth)[before.len() + (has_item(node) + k)] == own[has_item(
            node,
        ) + k]);
    }
}

/// Whether a title shows anything.
pub open spec fn is_titled(entry: EntryView) -> bool {
    exists|i: int| 0 <= i < entry.title.len() && !is_blank(#[trigger] entry.title[i])
}

/// How many of the entries have a title that shows.
pub open spec fn titled_count(entries: Seq<EntryView>) -> nat
    decreases entries.len(),
{
    if entries.len() == 0 {
        0
    } else if is_titled(entries.last()) {
        titled_count(entries.drop_last()) + 1
    } else {
        titled_count(entries.drop_last())
    }
}

/// The entries that are kept are those whose titles show, in their order. Each
/// keeps its depth, and its page where the document has it, or else gets the
/// last page; its title loses the blanks at its ends and nothing else.
pub proof fn law_titled_entries_are_kept(entries: Seq<EntryView>, last: usize, i: int)
    ensures
        kept_entries(entries, last).len() == titled_count(entries),
        0 <= i < entries.len() && is_titled(entries[i]) ==> {
            let k = titled_count(entries.take(i));
            let kept = kept_entries(entries, last)[k as int];
            &&& k < kept_entries(entries, last).len()
            &&& kept.depth == entries[i].depth
            &&& kept.page <= last
            &&& entries[i].page <= last ==> kept.page == entries[i].page
            &&& entries[i].page > last ==> kept.page == last
            &&& is_core(kept.title, entries[i].title)
        },
    decreases entries.len(),
{
    if entries.len() > 0 {
        let front = entries.drop_last();
        let end = entries.last();
        law_titled_entries_are_kept(front, last, i);
        law_trim_takes_the_core(end.title);
        assert(trim(end.title).len() > 0 <==> is_titled(end)) by {
            if trim(end.title).len() > 0 {
                let (a, b) = choose|a: int, b: int| #[trigger]
                    cuts_core(trim(end.title), end.title, a, b);
                assert(trim(end.title)[0] == end.title[a]);
                assert(!is_blank(end.title[a]));
            }
        }
        if 0 <= i < entries.len() && is_titled(entries[i]) {
            if i < front.len() {
                assert(front[i] == entries[i]);
                assert(front.take(i) =~= entries.take(i));
                let k = titled_count(entries.take(i));
                assert(kept_entries(entries, last)[k as int] == kept_entries(front, last)[k as int]);
            } else {
                assert(entries.take(i) =~= front);
            }
        }
    }
}

/// How many of the matches cover an area.
pub open spec fn area_count(found: Seq<MatchRect>) -> nat
    decreases found.len(),
{
    if found.len() == 0 {
        0
    } else {
        let zero = Double { bits: 0 };
        let last = found.last();
        area_count(found.drop_last()) + (if zero.lt(last.w) && zero.lt(last.h) {
            1nat
        } else {
            0
        })
    }
}

/// The matches that count are those whose width and height are positive, all
/// of them, unchanged and in their order.
pub proof fn law_matches_with_area_are_kept(found: Seq<MatchRect>, i: int)
    ensures
        with_area(found).len() == area_count(found),
        0 <= i < found.len() && (Double { bits: 0 }).lt(found[i].w) && (Double { bits: 0 }).lt(
            found[i].h,
        ) ==> {
            &&& area_count(found.take(i)) < with_area(found).len()
            &&& with_area(found)[area_count(found.take(i)) as int] == found[i]
        },
    decreases found.len(),
{
    if found.len() > 0 {
        let front = found.drop_last();
        law_matches_with_area_are_kept(front, i);
        if 0 <= i < front.len() {
            assert(front[i] == found[i]);
            assert(front.take(i) =~= found.take(i));
        } else if i == front.len() {
            assert(found.take(i) =~= front);
        }
    }
}

/// The pixel in row `y` and at byte `x` of the row is where it is without the
/// padding.
pub proof fn law_packed_pixels_stay_in_place(
    data: Seq<u8>,
    stride: int,
    row: int,
    height: nat,
    x: int,
    y: int,
)
    requires
        0 <= x < row <= stride,
        0 <= y < height,
        data.len() == stride * height,
    ensures
        0 <= row * y + x < packed(data, stride, row).len(),
        packed(data, stride, row)[row * y + x] == data[stride * y + x],
    decreases height,
{
    let less = (height - 1) as nat;
    law_packed_length(data, stride, row, height);
    assert(stride * height == stride * less + stride) by (nonlinear_arith)
        requires
            height == less + 1,
    ;
    assert(row * height == row * less + row) by (nonlinear_arith)
        requires
            height == less + 1,
    ;
    assert(stride * less >= 0 && row * less >= 0 && row * y >= 0 && stride * y >= 0)
        by (nonlinear_arith)
        requires
            stride >= 0,
            row >= 0,
            y >= 0,
    ;
    let first = data.take(row);
    if y == 0 {
        assert(row * y == 0 && stride * y == 0) by (nonlinear_arith)
            requires
                y == 0,
        ;
        if data.len() <= stride {
            assert(packed(data, stride, row)[x] == data[x]);
        } else {
            assert(packed(data, stride, row) == data.take(
                if row < stride {
                    row
                } else {
                    stride
                },
            ) + packed(data.skip(stride), stride, row));
        }
    } else {
        let rest = data.skip(stride);
        assert(less > 0);
        assert(stride * less > 0) by (nonlinear_arith)
            requires
                stride > 0,
                less > 0,
        ;
        law_packed_pixels_stay_in_place(rest, stride, row, less, x, y - 1);
        assert(row * y == row * (y - 1) + row) by (nonlinear_arith);
        assert(stride * y == stride * (y - 1) + stride) by (nonlinear_arith);
        assert(row * (y - 1) >= 0 && stride * (y - 1) >= 0) by (nonlinear_arith)
            requires
                y >= 1,
                row >= 0,
                stride >= 0,
        ;
        assert(stride * (y - 1) + x < rest.len()) by (nonlinear_arith)
            requires
                y - 1 <= less - 1,
                x < stride,
                rest.len() == stride * less,
                stride > 0,
        ;
        assert(packed(data, stride, row) =~= first + packed(rest, stride, row)) by {
            assert(data.take(
                if row < stride {
                    row
                } else {
                    stride
                },
            ) =~= first);
        }
    }
}

/// A document has as many pages as it reports, and none where it reports a
/// negative number; its last page is the one before that number.
pub proof fn law_pages_are_those_reported(doc: PdfDoc)
    ensures
        doc.page_count >= 0 ==> doc.pages() == doc.page_count,
        doc.page_count < 0 ==> doc.pages() == 0,
        doc.pages() > 0 ==> doc.last_page() + 1 == doc.pages(),
        doc.pages() == 0 ==> doc.last_page() == 0,
{
}

/// The entry of a node is directly followed by those of all that lies below
/// it, one level deeper.
pub proof fn law_children_follow_their_entry(
    nodes: Seq<OutlineNode>,
    depth: int,
    path: Seq<int>,
    i: int,
)
    requires
        leads_to_node(nodes, path),
        0 <= i < item_count(node_at(nodes, path).children@),
    ensures
        ({
            let node = node_at(nodes, path);
            let below = outline_entries(node.children@, depth + path.len());
            let place = items_before(nodes, path) + has_item(node) + i;
            &&& i < below.len()
            &&& place < outline_entries(nodes, depth).len()
            &&& outline_entries(nodes, depth)[place] == below[i]
        }),
    decreases path.len(),
{
    let n = path[0];
    let node = nodes[n];
    let before = outline_entries(nodes.take(n), depth);
    let own = node_entries(node, depth);
    let below = outline_entries(node.children@, depth + 1);
    law_every_item_has_an_entry(nodes.take(n), depth);
    law_every_item_has_an_entry(node.children@, depth + 1);
    lemma_entries_of_take(nodes, depth, n);
    assert(own == own_entry(node, depth) + below);
    if path.len() == 1 {
        assert(own[has_item(node) + i] == below[i]);
        assert(outline_entries(nodes, depth)[before.len() + (has_item(node) + i)] == own[has_item(
            node,
        ) + i]);
    } else {
        let rest = path.skip(1);
        law_children_follow_their_entry(node.children@, depth + 1, rest, i);
        let k = items_before(node.children@, rest) + has_item(node_at(node.children@, rest)) + i;
        assert(own[has_item(node) + k] == below[k]);
        assert(outline_entries(nodes, depth)[before.len() + (has_item(node) + k)] == own[has_item(
            node,
        ) + k]);
    }
}

} // verus!
