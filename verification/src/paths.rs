//! File paths: bytes, with components between slashes.
use vstd::prelude::*;
use vstd::slice::{slice_subrange, slice_to_vec};
use vstd::utf8::*;


verus! {

/// The byte that separates the components of a path.
pub const SLASH: u8 = 47;

/// The byte `.`, alone the component for the current directory.
pub const DOT: u8 = 46;

/// A file path. Its bytes need not be UTF-8.
#[derive(Debug)]
pub struct FilePath {
    pub bytes: Vec<u8>,
}

impl View for FilePath {
    type V = Seq<u8>;

    open spec fn view(&self) -> Seq<u8> {
        self.bytes@
    }
}

impl Clone for FilePath {
    fn clone(&self) -> (r: FilePath)
        ensures
            r@ == self@,
    {
        FilePath { bytes: slice_to_vec(self.bytes.as_slice()) }
    }
}

/// Paths are equal component by component.
impl PartialEq for FilePath {
    fn eq(&self, other: &FilePath) -> (r: bool) {
        self.same(other)
    }
}

impl vstd::std_specs::cmp::PartialEqSpecImpl for FilePath {
    open spec fn obeys_eq_spec() -> bool {
        true
    }

    open spec fn eq_spec(&self, other: &FilePath) -> bool {
        components(self@) == components(other@)
    }
}

/// How many elements come before the first separator.
pub open spec fn segment_len<T>(s: Seq<T>, slash: T) -> int
    decreases s.len(),
{
    if s.len() == 0 || s[0] == slash {
        0
    } else {
        1 + segment_len(s.skip(1), slash)
    }
}

proof fn lemma_segment_len<T>(s: Seq<T>, slash: T)
    ensures
        0 <= segment_len(s, slash) <= s.len(),
        forall|i: int| 0 <= i < segment_len(s, slash) ==> s[i] != slash,
        segment_len(s, slash) < s.len() ==> s[segment_len(s, slash)] == slash,
        s.len() > 0 && s[0] != slash ==> segment_len(s, slash) > 0,
    decreases s.len(),
{
    if s.len() > 0 && s[0] != slash {
        lemma_segment_len(s.skip(1), slash);
        assert forall|i: int| 0 <= i < segment_len(s, slash) implies s[i] != slash by {
            if i > 0 {
                assert(s[i] == s.skip(1)[i - 1]);
            }
        }
        if segment_len(s, slash) < s.len() {
            assert(s[segment_len(s, slash)] == s.skip(1)[segment_len(s.skip(1), slash)]);
        }
    }
}

/// The segments of `s` between separators that name something: neither empty
/// nor `.`.
pub open spec fn segments(s: Seq<u8>) -> Seq<Seq<u8>>
    decreases s.len(),
    via segments_decreases
{
    if s.len() == 0 {
        Seq::empty()
    } else if s[0] == SLASH {
        segments(s.skip(1))
    } else {
        let n = segment_len(s, SLASH);
        if s.take(n) == seq![DOT] {
            segments(s.skip(n))
        } else {
            seq![s.take(n)] + segments(s.skip(n))
        }
    }
}

#[via_fn]
proof fn segments_decreases(s: Seq<u8>) {
    lemma_segment_len(s, SLASH);
}

/// The components of the path `p`: the root as `/` where `p` is absolute, a
/// leading `.` where it is not, and the segments that name something.
pub open spec fn components(p: Seq<u8>) -> Seq<Seq<u8>> {
    if p.len() > 0 && p[0] == SLASH {
        seq![seq![SLASH]] + segments(p)
    } else if p.take(segment_len(p, SLASH)) == seq![DOT] {
        seq![seq![DOT]] + segments(p)
    } else {
        segments(p)
    }
}

/// The bytes of each component.
pub open spec fn byte_views(v: Seq<Vec<u8>>) -> Seq<Seq<u8>> {
    v.map_values(|b: Vec<u8>| b@)
}

/// Whether `a` and `b` hold the same bytes.
pub fn same_bytes(a: &[u8], b: &[u8]) -> (r: bool)
    ensures
        r == (a@ == b@),
{
    if a.len() != b.len() {
        return false;
    }
    let mut i: usize = 0;
    while i < a.len()
        invariant
            i <= a@.len() == b@.len(),
            forall|j: int| 0 <= j < i ==> a@[j] == b@[j],
        decreases a@.len() - i,
    {
        if a[i] != b[i] {
            return false;
        }
        i += 1;
    }
    assert(a@ =~= b@);
    true
}

/// The length of the segment at `from`.
fn segment_end(p: &[u8], from: usize) -> (r: usize)
    requires
        from <= p@.len(),
    ensures
        r == from + segment_len(p@.skip(from as int), SLASH),
        from <= r <= p@.len(),
{
    let mut i: usize = from;
    let ghost rest = p@.skip(from as int);
    assert(rest.skip(0) =~= rest);
    while i < p.len() && p[i] != SLASH
        invariant
            from <= i <= p@.len(),
            rest == p@.skip(from as int),
            segment_len(rest, SLASH) == i - from + segment_len(rest.skip(i - from), SLASH),
        decreases p@.len() - i,
    {
        assert(rest.skip(i - from).skip(1) =~= rest.skip(i + 1 - from));
        assert(rest.skip(i - from)[0] == p@[i as int]);
        i += 1;
    }
    assert(i < p@.len() ==> rest.skip(i - from)[0] == p@[i as int]);
    i
}

/// The components of `p`.
pub fn components_of(p: &[u8]) -> (r: Vec<Vec<u8>>)
    ensures
        byte_views(r@) == components(p@),
{
    let mut out: Vec<Vec<u8>> = Vec::new();
    assert(p@.skip(0) =~= p@);
    let first: usize = segment_end(p, 0);
    if p.len() > 0 && p[0] == SLASH {
        let root: Vec<u8> = vec![SLASH];
        assert(root@ =~= seq![SLASH]);
        out.push(root);
        assert(byte_views(out@) =~= seq![seq![SLASH]]);
    } else if first == 1 && p[0] == DOT {
        let here: Vec<u8> = vec![DOT];
        assert(here@ =~= seq![DOT]);
        assert(p@.take(1) =~= seq![DOT]);
        out.push(here);
        assert(byte_views(out@) =~= seq![seq![DOT]]);
    } else {
        assert(p@.take(segment_len(p@, SLASH)) != seq![DOT]) by {
            if p@.take(segment_len(p@, SLASH)) == seq![DOT] {
                assert(p@.take(segment_len(p@, SLASH)).len() == 1);
                assert(p@.take(segment_len(p@, SLASH))[0] == DOT);
            }
        }
        assert(byte_views(out@) =~= Seq::empty());
    }
    let ghost head = byte_views(out@);
    assert(head + segments(p@) =~= components(p@));
    let mut i: usize = 0;
    while i < p.len()
        invariant
            i <= p@.len(),
            byte_views(out@) + segments(p@.skip(i as int)) == components(p@),
        decreases p@.len() - i,
    {
        let ghost rest = p@.skip(i as int);
        if p[i] == SLASH {
            assert(rest.skip(1) =~= p@.skip(i + 1));
            i += 1;
        } else {
            let end: usize = segment_end(p, i);
            proof {
                lemma_segment_len(rest, SLASH);
            }
            let part = slice_subrange(p, i, end);
            assert(part@ =~= rest.take(end - i));
            assert(rest.skip(end - i) =~= p@.skip(end as int));
            if end - i == 1 && p[i] == DOT {
                assert(rest.take(1) =~= seq![DOT]);
            } else {
                assert(rest.take(end - i) != seq![DOT]) by {
                    if rest.take(end - i) == seq![DOT] {
                        assert(rest.take(end - i).len() == 1);
                        assert(rest.take(end - i)[0] == DOT);
                    }
                }
                let ghost before = out@;
                let owned = slice_to_vec(part);
                out.push(owned);
                assert(byte_views(out@) =~= byte_views(before).push(part@));
                assert(byte_views(before) + (seq![part@] + segments(p@.skip(end as int)))
                    =~= byte_views(out@) + segments(p@.skip(end as int)));
            }
            i = end;
        }
    }
    assert(byte_views(out@) + segments(p@.skip(i as int)) =~= byte_views(out@));
    out
}

/// `p` without the separators and `.` segments that it ends with, down to the
/// root or to a leading `.`.
pub open spec fn trim_tail<T>(p: Seq<T>, slash: T, dot: T) -> Seq<T>
    decreases p.len(),
{
    if p.len() > 1 && p.last() == slash {
        trim_tail(p.drop_last(), slash, dot)
    } else if p.len() > 1 && p.last() == dot && p[p.len() - 2] == slash {
        trim_tail(p.drop_last(), slash, dot)
    } else {
        p
    }
}

/// Where the last segment of `p` starts: after its last separator.
pub open spec fn last_start<T>(p: Seq<T>, slash: T) -> int
    decreases p.len(),
{
    if p.len() == 0 || p.last() == slash {
        p.len() as int
    } else {
        last_start(p.drop_last(), slash)
    }
}

pub proof fn lemma_last_start<T>(p: Seq<T>, slash: T)
    ensures
        0 <= last_start(p, slash) <= p.len(),
        last_start(p, slash) > 0 ==> p[last_start(p, slash) - 1] == slash,
        forall|i: int| last_start(p, slash) <= i < p.len() ==> p[i] != slash,
    decreases p.len(),
{
    if p.len() > 0 && p.last() != slash {
        lemma_last_start(p.drop_last(), slash);
        assert forall|i: int| last_start(p, slash) <= i < p.len() implies p[i] != slash by {
            if i < p.len() - 1 {
                assert(p[i] == p.drop_last()[i]);
            }
        }
    }
}

/// The name of the file that `p` leads to: its last segment, unless that is
/// the root, `.` or `..`.
pub open spec fn file_name<T>(p: Seq<T>, slash: T, dot: T) -> Option<Seq<T>> {
    let t = trim_tail(p, slash, dot);
    let name = t.skip(last_start(t, slash));
    if name.len() == 0 || name == seq![dot] || name == seq![dot, dot] {
        None
    } else {
        Some(name)
    }
}

/// `p` without its last component, unless `p` is empty or the root.
pub open spec fn parent<T>(p: Seq<T>, slash: T, dot: T) -> Option<Seq<T>> {
    let t = trim_tail(p, slash, dot);
    if t.len() == 0 || t == seq![slash] {
        None
    } else {
        Some(trim_tail(t.take(last_start(t, slash)), slash, dot))
    }
}

/// The path `name`, taken relative to the directory `dir` unless `name` is
/// absolute.
pub open spec fn joined(dir: Seq<u8>, name: Seq<u8>) -> Seq<u8> {
    if name.len() > 0 && name[0] == SLASH {
        name
    } else if dir.len() == 0 || dir.last() == SLASH {
        dir + name
    } else {
        dir.push(SLASH) + name
    }
}

/// The length of `p` without the separators and `.` segments at its end.
fn trimmed_len(p: &[u8]) -> (r: usize)
    ensures
        r <= p@.len(),
        p@.take(r as int) == trim_tail(p@, SLASH, DOT),
{
    let mut n: usize = p.len();
    assert(p@.take(n as int) =~= p@);
    while n > 1 && (p[n - 1] == SLASH || (p[n - 1] == DOT && p[n - 2] == SLASH))
        invariant
            n <= p@.len(),
            trim_tail(p@, SLASH, DOT) == trim_tail(p@.take(n as int), SLASH, DOT),
        decreases n,
    {
        assert(p@.take(n as int).drop_last() =~= p@.take(n - 1));
        n -= 1;
    }
    n
}

/// Where the last segment of the first `n` bytes of `p` starts.
fn last_start_of(p: &[u8], n: usize) -> (r: usize)
    requires
        n <= p@.len(),
    ensures
        r <= n,
        r == last_start(p@.take(n as int), SLASH),
{
    let mut i: usize = n;
    while i > 0 && p[i - 1] != SLASH
        invariant
            i <= n <= p@.len(),
            last_start(p@.take(n as int), SLASH) == last_start(p@.take(i as int), SLASH),
        decreases i,
    {
        assert(p@.take(i as int).drop_last() =~= p@.take(i - 1));
        i -= 1;
    }
    i
}

/// What `String::from_utf8_lossy` puts in place of bytes that are not UTF-8,
/// between the text of those that are.
pub uninterp spec fn mended_utf8(bytes: Seq<u8>) -> Seq<char>;

/// The text of `bytes`: what they spell in UTF-8, or that with replacement
/// characters for the bytes that spell nothing.
pub open spec fn shown(bytes: Seq<u8>) -> Seq<char> {
    if valid_utf8(bytes) {
        decode_utf8(bytes)
    } else {
        mended_utf8(bytes)
    }
}

/// `String::from_utf8_lossy`: bytes that are UTF-8 give the text they spell;
/// of other bytes it is only said that the text depends on them alone.
#[verifier::external_body]
pub(crate) fn lossy_text(bytes: &[u8]) -> (r: String)
    ensures
        r@ == (if valid_utf8(bytes@) {
            decode_utf8(bytes@)
        } else {
            mended_utf8(bytes@)
        }),
{
    String::from_utf8_lossy(bytes).into_owned()
}

impl FilePath {
    /// The text of the path, as it is shown and written to files.
    pub fn text(&self) -> (r: String)
        ensures
            r@ == shown(self@),
    {
        lossy_text(self.bytes.as_slice())
    }

    /// What the path spells, if it is UTF-8.
    pub fn utf8_text(&self) -> (r: Option<String>)
        ensures
            match r {
                Some(text) => valid_utf8(self@) && text@ == decode_utf8(self@),
                None => !valid_utf8(self@),
            },
    {
        broadcast use {vstd::utf8::encode_utf8_valid_utf8, vstd::utf8::decode_utf8_encode_utf8};

        let text = self.text();
        if same_bytes(text.as_str().as_bytes(), self.bytes.as_slice()) {
            Some(text)
        } else {
            None
        }
    }

    /// The text of the name of the file that the path leads to.
    pub fn file_name(&self) -> (r: Option<String>)
        ensures
            match file_name(self@, SLASH, DOT) {
                Some(name) => r is Some && r->0@ == shown(name),
                None => r is None,
            },
    {
        let p = self.bytes.as_slice();
        let n: usize = trimmed_len(p);
        let from: usize = last_start_of(p, n);
        let name = slice_subrange(p, from, n);
        let ghost t = trim_tail(p@, SLASH, DOT);
        assert(name@ =~= t.skip(last_start(t, SLASH)));
        if n == from {
            return None;
        }
        if n - from == 1 && p[from] == DOT {
            assert(name@ =~= seq![DOT]);
            return None;
        }
        if n - from == 2 && p[from] == DOT && p[from + 1] == DOT {
            assert(name@ =~= seq![DOT, DOT]);
            return None;
        }
        assert(name@ != seq![DOT] && name@ != seq![DOT, DOT]) by {
            assert(seq![DOT].len() == 1 && seq![DOT][0] == DOT);
            assert(seq![DOT, DOT].len() == 2 && seq![DOT, DOT][0] == DOT && seq![DOT, DOT][1]
                == DOT);
            assert(name@[0] == p@[from as int]);
            assert(name@.len() > 1 ==> name@[1] == p@[from + 1]);
        }
        Some(lossy_text(name))
    }

    /// The path `name`, taken relative to this directory unless `name` is
    /// absolute.
    pub fn join(&self, name: &str) -> (r: FilePath)
        ensures
            r@ == joined(self@, encode_utf8(name@)),
    {
        let added = name.as_bytes();
        if added.len() > 0 && added[0] == SLASH {
            return FilePath { bytes: slice_to_vec(added) };
        }
        let mut bytes: Vec<u8> = slice_to_vec(self.bytes.as_slice());
        if bytes.len() > 0 && bytes[bytes.len() - 1] != SLASH {
            bytes.push(SLASH);
        }
        let mut tail: Vec<u8> = slice_to_vec(added);
        bytes.append(&mut tail);
        FilePath { bytes }
    }

    /// The path that `text` spells.
    pub fn new(text: &str) -> (r: FilePath)
        ensures
            r@ == encode_utf8(text@),
    {
        FilePath { bytes: slice_to_vec(text.as_bytes()) }
    }

    /// Whether two paths are the same, component by component: `a//b/.` is
    /// `a/b`.
    pub fn same(&self, other: &FilePath) -> (r: bool)
        ensures
            r == (components(self@) == components(other@)),
    {
        let a = components_of(self.bytes.as_slice());
        let b = components_of(other.bytes.as_slice());
        if a.len() != b.len() {
            assert(byte_views(a@).len() != byte_views(b@).len());
            return false;
        }
        let mut i: usize = 0;
        while i < a.len()
            invariant
                i <= a@.len() == b@.len(),
                byte_views(a@) == components(self@),
                byte_views(b@) == components(other@),
                forall|j: int| 0 <= j < i ==> a@[j]@ == b@[j]@,
            decreases a@.len() - i,
        {
            if !same_bytes(a[i].as_slice(), b[i].as_slice()) {
                assert(byte_views(a@)[i as int] != byte_views(b@)[i as int]);
                return false;
            }
            i += 1;
        }
        assert(byte_views(a@) =~= byte_views(b@));
        true
    }
}

/// A separator parts the names of a path: those before it come first, then
/// those after it. So more separators in a row, or one at the end, add nothing.
pub proof fn law_separator_parts_the_names(a: Seq<u8>, b: Seq<u8>)
    ensures
        segments(a.push(SLASH) + b) == segments(a) + segments(b),
    decreases a.len(),
{
    let whole = a.push(SLASH) + b;
    if a.len() == 0 {
        assert(whole[0] == SLASH);
        assert(whole.skip(1) =~= b);
        assert(segments(a) + segments(b) =~= segments(b));
    } else if a[0] == SLASH {
        assert(whole[0] == a[0]);
        assert(whole.skip(1) =~= a.skip(1).push(SLASH) + b);
        law_separator_parts_the_names(a.skip(1), b);
    } else {
        let n = segment_len(a, SLASH);
        lemma_segment_len(a, SLASH);
        lemma_segment_len(whole, SLASH);
        let w = segment_len(whole, SLASH);
        assert(w == n) by {
            if w < n {
                assert(whole[w] == a[w]);
            } else if n < a.len() {
                assert(whole[n] == a[n]);
            } else {
                assert(whole[n] == SLASH);
            }
        }
        assert(whole[0] == a[0]);
        assert(whole.take(n) =~= a.take(n));
        assert(whole.skip(n) =~= a.skip(n).push(SLASH) + b);
        law_separator_parts_the_names(a.skip(n), b);
        assert(seq![a.take(n)] + (segments(a.skip(n)) + segments(b)) =~= seq![a.take(n)]
            + segments(a.skip(n)) + segments(b));
    }
}

/// Whether `name` can stand between two separators.
pub open spec fn is_one_segment(name: Seq<u8>) -> bool {
    forall|i: int| 0 <= i < name.len() ==> #[trigger] name[i] != SLASH
}

/// What stands between two separators is one name, as it is written; nothing
/// at all, or `.`, is none.
pub proof fn law_segment_is_a_name(name: Seq<u8>)
    requires
        is_one_segment(name),
    ensures
        name.len() == 0 || name == seq![DOT] ==> segments(name).len() == 0,
        name.len() > 0 && name != seq![DOT] ==> segments(name) == seq![name],
{
    if name.len() > 0 {
        lemma_segment_len(name, SLASH);
        assert(name[0] != SLASH);
        assert(segment_len(name, SLASH) == name.len());
        assert(name.take(name.len() as int) =~= name);
        assert(name.skip(name.len() as int) =~= Seq::empty());
        assert(segments(Seq::<u8>::empty()).len() == 0);
        assert(seq![name] + segments(name.skip(name.len() as int)) =~= seq![name]);
    }
}

/// A path is its names, after the root where it starts with a separator. A
/// path that starts with `.` keeps that one.
pub proof fn law_components_are_the_names(first: Seq<u8>, rest: Seq<u8>)
    requires
        is_one_segment(first),
        first.len() > 0,
    ensures
        components(seq![SLASH] + rest) == seq![seq![SLASH]] + segments(rest),
        components(first.push(SLASH) + rest) == seq![first] + segments(rest),
        components(first) == seq![first],
{
    let absolute = seq![SLASH] + rest;
    assert(absolute[0] == SLASH);
    assert(absolute.skip(1) =~= rest);
    let relative = first.push(SLASH) + rest;
    law_separator_parts_the_names(first, rest);
    law_segment_is_a_name(first);
    lemma_segment_len(relative, SLASH);
    lemma_segment_len(first, SLASH);
    let n = segment_len(relative, SLASH);
    assert(n == first.len()) by {
        assert(relative[first.len() as int] == SLASH);
        if n < first.len() {
            assert(relative[n] == first[n]);
        }
    }
    assert(relative[0] == first[0]);
    assert(relative.take(n) =~= first);
    assert(first.take(segment_len(first, SLASH)) =~= first);
    assert(Seq::<Seq<u8>>::empty() + segments(rest) =~= segments(rest));
}

/// A relative name that is joined to a directory adds its names to those of
/// the directory; an absolute one stands for itself.
pub proof fn law_join_adds_the_names(dir: Seq<u8>, name: Seq<u8>)
    ensures
        name.len() > 0 && name[0] == SLASH ==> joined(dir, name) == name,
        name.len() == 0 || name[0] != SLASH ==> {
            &&& segments(joined(dir, name)) == segments(dir) + segments(name)
            &&& dir.len() > 0 ==> joined(dir, name).take(dir.len() as int) == dir
        },
{
    if name.len() == 0 || name[0] != SLASH {
        let none = Seq::<u8>::empty();
        assert(segments(none) =~= Seq::empty());
        if dir.len() == 0 {
            assert(dir + name =~= name);
            assert(segments(dir) + segments(name) =~= segments(name));
        } else if dir.last() == SLASH {
            let front = dir.drop_last();
            assert(front.push(SLASH) =~= dir);
            law_separator_parts_the_names(front, name);
            law_separator_parts_the_names(front, none);
            assert(dir + none =~= dir);
            assert(segments(front) + segments(none) =~= segments(front));
        } else {
            law_separator_parts_the_names(dir, name);
        }
        assert(dir.len() > 0 ==> joined(dir, name).take(dir.len() as int) =~= dir);
    }
}

/// Whether `name` is the name of a file: something without a separator, other
/// than `.` and `..`.
pub open spec fn is_file_name<T>(name: Seq<T>, slash: T, dot: T) -> bool {
    &&& name.len() > 0
    &&& name != seq![dot]
    &&& name != seq![dot, dot]
    &&& forall|i: int| 0 <= i < name.len() ==> #[trigger] name[i] != slash
}

/// The name of a file in a directory is what follows the last separator, and
/// a name alone is its own; a separator at the end changes nothing.
pub proof fn law_file_name_follows_the_last_separator<T>(
    dir: Seq<T>,
    name: Seq<T>,
    slash: T,
    dot: T,
)
    requires
        is_file_name(name, slash, dot),
        slash != dot,
    ensures
        file_name(dir.push(slash) + name, slash, dot) == Some(name),
        file_name((dir.push(slash) + name).push(slash), slash, dot) == Some(name),
        file_name(name, slash, dot) == Some(name),
{
    let p = dir.push(slash) + name;
    lemma_named_tail(dir, name, slash, dot);
    assert(p.push(slash).drop_last() =~= p);
    assert(p.skip(dir.len() as int + 1) =~= name);
    lemma_last_start(name, slash);
    let n = last_start(name, slash);
    if n > 0 {
        assert(name[n - 1] != slash);
    }
    assert(name.skip(0) =~= name);
    lemma_name_is_whole(name, slash, dot);
}

proof fn lemma_name_is_whole<T>(name: Seq<T>, slash: T, dot: T)
    requires
        is_file_name(name, slash, dot),
    ensures
        trim_tail(name, slash, dot) == name,
{
    assert(name[name.len() - 1] != slash);
    if name.len() > 1 {
        assert(name[name.len() - 2] != slash);
    }
}

proof fn lemma_named_tail<T>(dir: Seq<T>, name: Seq<T>, slash: T, dot: T)
    requires
        is_file_name(name, slash, dot),
    ensures
        trim_tail(dir.push(slash) + name, slash, dot) == dir.push(slash) + name,
        last_start(dir.push(slash) + name, slash) == dir.len() + 1,
{
    let p = dir.push(slash) + name;
    assert(p.last() == name[name.len() - 1]);
    if p.last() == dot && p[p.len() - 2] == slash {
        if name.len() > 1 {
            assert(p[p.len() - 2] == name[name.len() - 2]);
        } else {
            assert(name =~= seq![dot]);
        }
    }
    lemma_last_start(p, slash);
    let n = last_start(p, slash);
    assert(p[dir.len() as int] == slash);
    if n > dir.len() + 1 {
        assert(p[n - 1] == name[n - 1 - dir.len() - 1]);
    }
}

/// A file lies in the directory before the last separator: `dir` if that ends
/// in a name, the root if nothing comes before, and no directory at all for a
/// name alone.
pub proof fn law_parent_is_before_the_last_separator<T>(
    dir: Seq<T>,
    name: Seq<T>,
    slash: T,
    dot: T,
)
    requires
        is_file_name(name, slash, dot),
        slash != dot,
        dir.len() > 0 ==> dir.last() != slash && dir.last() != dot,
    ensures
        dir.len() > 0 ==> parent(dir.push(slash) + name, slash, dot) == Some(dir),
        parent(seq![slash] + name, slash, dot) == Some(seq![slash]),
        parent(name, slash, dot) == Some(Seq::<T>::empty()),
{
    let p = dir.push(slash) + name;
    lemma_named_tail(dir, name, slash, dot);
    assert(p.take(dir.len() as int + 1) =~= dir.push(slash));
    assert(dir.push(slash).drop_last() =~= dir);
    if dir.len() > 0 {
        assert(trim_tail(dir.push(slash), slash, dot) == trim_tail(dir, slash, dot));
        assert(trim_tail(dir, slash, dot) == dir);
        assert(p.len() >= 2);
    }
    let none = Seq::<T>::empty();
    let root = none.push(slash) + name;
    lemma_named_tail(none, name, slash, dot);
    assert(root =~= seq![slash] + name);
    assert(root.take(1) =~= seq![slash]);
    assert(root.len() >= 2);
    lemma_name_is_whole(name, slash, dot);
    lemma_last_start(name, slash);
    let n = last_start(name, slash);
    if n > 0 {
        assert(name[n - 1] != slash);
    }
    assert(name.take(0) =~= none);
    assert(name[0] != slash);
    assert(name != seq![slash]);
}

} // verus!
