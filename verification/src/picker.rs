//! The file picker: what it searches, how it filters and what it answers.
use vstd::prelude::*;
use vstd::slice::{slice_subrange, slice_to_vec};
use vstd::utf8::{encode_scalar, encode_utf8};

use crate::keys::{
    Key, ModifierType, KEY_A, KEY_B, KEY_E, KEY_ESCAPE, KEY_F, KEY_KP_ENTER, KEY_N, KEY_P,
    KEY_RETURN, KEY_SPACE,
};
use crate::paths::{
    file_name, is_file_name, last_start, law_file_name_follows_the_last_separator,
    law_parent_is_before_the_last_separator, lossy_text, parent, shown, trim_tail, FilePath,
};
use crate::text::{
    chars_of, cuts_core, has_prefix, is_blank, law_trim_takes_the_core, same_text, starts_with,
    string_of, texts, trim, trimmed,
};

verus! {

/// How long typing must rest before the candidates are filtered, in
/// milliseconds.
pub const FILTER_DEBOUNCE_MS: u32 = 150;

/// How many candidates are listed while there is no query.
pub const MAX_EMPTY_RESULTS: usize = 50;

/// The text of the home directory, or `.` where it is not set.
pub open spec fn home_text(home: Option<FilePath>) -> Seq<char> {
    match home {
        Some(dir) => shown(dir@),
        None => "."@,
    }
}

/// The home directory. `home` is the value of `HOME`, where it is set.
pub fn home_dir(home: &Option<FilePath>) -> (r: String)
    ensures
        r@ == home_text(*home),
{
    match home {
        Some(dir) => dir.text(),
        None => ".".to_owned(),
    }
}

/// The directory that the root `root` of the picker stands for.
pub open spec fn expanded(root: Seq<char>, home: Seq<char>) -> Seq<char> {
    if trim(root).len() == 0 || root == "~"@ {
        home
    } else if has_prefix(root, "~/"@) {
        home + "/"@ + root.skip(2)
    } else {
        root
    }
}

/// Expand `~`, `~/...` or an empty root to a concrete directory.
pub fn expand_root(root: &str, home: &Option<FilePath>) -> (r: String)
    ensures
        r@ == expanded(root@, home_text(*home)),
{
    proof {
        reveal_strlit("~/");
        reveal_strlit("~");
    }
    let chars = chars_of(root);
    if trimmed(chars.as_slice()).len() == 0 || same_text(root, "~") {
        return home_dir(home);
    }
    let prefix = chars_of("~/");
    if starts_with(chars.as_slice(), prefix.as_slice()) {
        let rest = slice_subrange(chars.as_slice(), 2, chars.len());
        assert(rest@ =~= root@.skip(2));
        let mut out = home_dir(home);
        out.append("/");
        out.append(string_of(rest).as_str());
        return out;
    }
    root.to_owned()
}

/// `dir`, with the home directory at its start abbreviated as `~`. No directory
/// is none, wherever home is.
pub open spec fn abbreviated(dir: Seq<char>, home: Seq<char>) -> Seq<char> {
    if dir.len() == 0 {
        dir
    } else if dir == home {
        "~"@
    } else if has_prefix(dir, home + "/"@) {
        "~/"@ + dir.skip(home.len() as int + 1)
    } else {
        dir
    }
}

/// The name under which a path is listed: that of its file, or the whole path
/// where it has none.
pub open spec fn listed_name(path: Seq<char>) -> Seq<char> {
    match file_name(path, '/', '.') {
        Some(name) => name,
        None => path,
    }
}

/// The directory under which a path is listed; empty where it has none.
pub open spec fn listed_dir(path: Seq<char>, home: Seq<char>) -> Seq<char> {
    abbreviated(
        match parent(path, '/', '.') {
            Some(dir) => dir,
            None => Seq::empty(),
        },
        home,
    )
}

/// The length of the first `n` characters of `p` without the separators and
/// `.` segments at their end.
fn trimmed_len(p: &[char], n: usize) -> (r: usize)
    requires
        n <= p@.len(),
    ensures
        r <= n,
        p@.take(r as int) == trim_tail(p@.take(n as int), '/', '.'),
{
    let mut k: usize = n;
    while k > 1 && (p[k - 1] == '/' || (p[k - 1] == '.' && p[k - 2] == '/'))
        invariant
            k <= n <= p@.len(),
            trim_tail(p@.take(n as int), '/', '.') == trim_tail(p@.take(k as int), '/', '.'),
        decreases k,
    {
        assert(p@.take(k as int).drop_last() =~= p@.take(k - 1));
        k -= 1;
    }
    k
}

/// Where the last segment of the first `n` characters of `p` starts.
fn last_start_of(p: &[char], n: usize) -> (r: usize)
    requires
        n <= p@.len(),
    ensures
        r <= n,
        r == last_start(p@.take(n as int), '/'),
{
    let mut i: usize = n;
    while i > 0 && p[i - 1] != '/'
        invariant
            i <= n <= p@.len(),
            last_start(p@.take(n as int), '/') == last_start(p@.take(i as int), '/'),
        decreases i,
    {
        assert(p@.take(i as int).drop_last() =~= p@.take(i - 1));
        i -= 1;
    }
    i
}

/// The name under which a path is listed.
fn name_of(path: &str) -> (r: String)
    ensures
        r@ == listed_name(path@),
{
    let chars = chars_of(path);
    let p = chars.as_slice();
    let n: usize = trimmed_len(p, p.len());
    assert(p@.take(p@.len() as int) =~= p@);
    let from: usize = last_start_of(p, n);
    let name = slice_subrange(p, from, n);
    let ghost t = trim_tail(p@, '/', '.');
    assert(name@ =~= t.skip(last_start(t, '/')));
    if n == from {
        return path.to_owned();
    }
    if n - from == 1 && p[from] == '.' {
        assert(name@ =~= seq!['.']);
        return path.to_owned();
    }
    if n - from == 2 && p[from] == '.' && p[from + 1] == '.' {
        assert(name@ =~= seq!['.', '.']);
        return path.to_owned();
    }
    assert(name@ != seq!['.'] && name@ != seq!['.', '.']) by {
        assert(seq!['.'].len() == 1 && seq!['.'][0] == '.');
        assert(seq!['.', '.'].len() == 2 && seq!['.', '.'][0] == '.' && seq!['.', '.'][1] == '.');
        assert(name@[0] == p@[from as int]);
        assert(name@.len() > 1 ==> name@[1] == p@[from + 1]);
    }
    string_of(name)
}

/// The directory that a path lies in; empty where it has none.
fn dir_of(path: &str) -> (r: String)
    ensures
        r@ == (match parent(path@, '/', '.') {
            Some(dir) => dir,
            None => Seq::empty(),
        }),
{
    let chars = chars_of(path);
    let p = chars.as_slice();
    let n: usize = trimmed_len(p, p.len());
    assert(p@.take(p@.len() as int) =~= p@);
    let ghost t = trim_tail(p@, '/', '.');
    if n == 0 {
        return String::new();
    }
    if n == 1 && p[0] == '/' {
        assert(t =~= seq!['/']);
        return String::new();
    }
    assert(t != seq!['/']) by {
        assert(seq!['/'].len() == 1 && seq!['/'][0] == '/');
        assert(t[0] == p@[0]);
    }
    let from: usize = last_start_of(p, n);
    let to: usize = trimmed_len(p, from);
    assert(p@.take(from as int) =~= t.take(from as int));
    let dir = slice_subrange(p, 0, to);
    assert(dir@ =~= p@.take(to as int));
    string_of(dir)
}

/// Split a path into the name of its file and its directory, with the home
/// directory at the start of the latter abbreviated as `~`. The directory is
/// empty when the path has no parent.
pub fn split_path(path: &str, home: &Option<FilePath>) -> (r: (String, String))
    ensures
        r.0@ == listed_name(path@),
        r.1@ == listed_dir(path@, home_text(*home)),
{
    let name = name_of(path);
    let dir = dir_of(path);
    let dir_chars = chars_of(dir.as_str());
    if dir_chars.len() == 0 {
        return (name, dir);
    }
    let home = home_dir(home);
    if same_text(dir.as_str(), home.as_str()) {
        return (name, "~".to_owned());
    }
    proof {
        reveal_strlit("/");
    }
    let inside = home.clone().concat("/");
    let inside_chars = chars_of(inside.as_str());
    if starts_with(dir_chars.as_slice(), inside_chars.as_slice()) {
        let rest = slice_subrange(dir_chars.as_slice(), inside_chars.len(), dir_chars.len());
        assert(rest@ =~= dir@.skip(home@.len() as int + 1));
        return (name, "~/".to_owned().concat(string_of(rest).as_str()));
    }
    (name, dir)
}

/// One row of the picker. A row for a path without a directory has no
/// subtitle.
#[derive(Debug)]
pub struct PickerRow {
    pub title: String,
    pub subtitle: Option<String>,
}

/// Whether `row` lists `path`.
pub open spec fn is_row_of(row: PickerRow, path: Seq<char>, home: Seq<char>) -> bool {
    &&& row.title@ == listed_name(path)
    &&& match row.subtitle {
        Some(dir) => dir@ == listed_dir(path, home) && dir@.len() > 0,
        None => listed_dir(path, home).len() == 0,
    }
}

/// The row of each path.
pub fn picker_rows(paths: &Vec<String>, home: &Option<FilePath>) -> (r: Vec<PickerRow>)
    ensures
        r@.len() == paths@.len(),
        forall|i: int|
            0 <= i < r@.len() ==> is_row_of(#[trigger] r@[i], paths@[i]@, home_text(*home)),
{
    let mut rows: Vec<PickerRow> = Vec::new();
    let mut i: usize = 0;
    while i < paths.len()
        invariant
            i <= paths@.len(),
            rows@.len() == i,
            forall|j: int|
                0 <= j < i ==> is_row_of(#[trigger] rows@[j], paths@[j]@, home_text(*home)),
        decreases paths@.len() - i,
    {
        let (title, dir) = split_path(paths[i].as_str(), home);
        let subtitle = if chars_of(dir.as_str()).len() == 0 {
            None
        } else {
            Some(dir)
        };
        rows.push(PickerRow { title, subtitle });
        i += 1;
    }
    rows
}

/// The arguments that list every document under `root`, each followed by a
/// zero byte.
pub fn list_arguments(root: String) -> (r: Vec<String>)
    ensures
        texts(r@) == seq!["-0"@, "-e"@, "pdf"@, "."@, root@],
{
    let mut args: Vec<String> = Vec::new();
    let ghost wanted = root@;
    args.push("-0".to_owned());
    args.push("-e".to_owned());
    args.push("pdf".to_owned());
    args.push(".".to_owned());
    args.push(root);
    assert(texts(args@) =~= seq!["-0"@, "-e"@, "pdf"@, "."@, wanted]);
    args
}

/// The arguments that filter candidates by `query`, each candidate and each
/// match followed by a zero byte.
pub fn filter_arguments(query: String) -> (r: Vec<String>)
    ensures
        texts(r@) == seq!["--read0"@, "--print0"@, "--filter"@, query@],
{
    let mut args: Vec<String> = Vec::new();
    let ghost wanted = query@;
    args.push("--read0".to_owned());
    args.push("--print0".to_owned());
    args.push("--filter".to_owned());
    args.push(query);
    assert(texts(args@) =~= seq!["--read0"@, "--print0"@, "--filter"@, wanted]);
    args
}

/// How the candidates are filtered: by listing some of them, or by handing
/// them to the fuzzy finder.
#[derive(Debug)]
pub enum FilterPlan {
    /// No query: these are the results.
    List(Vec<String>),
    /// The query, and what the finder reads.
    Find { query: String, input: Vec<u8> },
}

/// The texts in UTF-8, each followed by a zero byte.
pub open spec fn nul_joined(items: Seq<Seq<char>>) -> Seq<u8>
    decreases items.len(),
{
    if items.len() == 0 {
        Seq::empty()
    } else {
        encode_utf8(items[0]).push(0) + nul_joined(items.skip(1))
    }
}

/// The first `MAX_EMPTY_RESULTS` of the candidates.
pub open spec fn first_candidates(candidates: Seq<Seq<char>>) -> Seq<Seq<char>> {
    if candidates.len() <= MAX_EMPTY_RESULTS {
        candidates
    } else {
        candidates.take(MAX_EMPTY_RESULTS as int)
    }
}

/// Copies of the first candidates.
fn first_of(candidates: &[String]) -> (r: Vec<String>)
    ensures
        texts(r@) == first_candidates(texts(candidates@)),
{
    let mut out: Vec<String> = Vec::new();
    let mut i: usize = 0;
    while i < candidates.len() && i < MAX_EMPTY_RESULTS
        invariant
            i <= candidates@.len(),
            i <= MAX_EMPTY_RESULTS,
            texts(out@) == texts(candidates@).take(i as int),
        decreases candidates@.len() - i,
    {
        let ghost before = texts(out@);
        out.push(candidates[i].clone());
        assert(texts(out@) =~= before.push(candidates@[i as int]@));
        assert(texts(candidates@).take(i + 1) =~= texts(candidates@).take(i as int).push(
            candidates@[i as int]@,
        ));
        i += 1;
    }
    assert(texts(candidates@).take(i as int) =~= first_candidates(texts(candidates@)));
    out
}

/// What the finder reads: the candidates, each followed by a zero byte.
fn finder_input(candidates: &[String]) -> (r: Vec<u8>)
    ensures
        r@ == nul_joined(texts(candidates@)),
{
    let mut data: Vec<u8> = Vec::new();
    let mut i: usize = 0;
    let ghost all = texts(candidates@);
    assert(all.skip(0) =~= all);
    assert(data@ + nul_joined(all) =~= nul_joined(all));
    while i < candidates.len()
        invariant
            i <= candidates@.len(),
            all == texts(candidates@),
            nul_joined(all) == data@ + nul_joined(all.skip(i as int)),
        decreases candidates@.len() - i,
    {
        let ghost before = data@;
        let mut bytes: Vec<u8> = slice_to_vec(candidates[i].as_str().as_bytes());
        bytes.push(0);
        let ghost added = bytes@;
        data.append(&mut bytes);
        assert(all.skip(i as int)[0] == candidates@[i as int]@);
        assert(all.skip(i as int).skip(1) =~= all.skip(i + 1));
        assert(before + (added + nul_joined(all.skip(i + 1))) =~= data@ + nul_joined(
            all.skip(i + 1),
        ));
        i += 1;
    }
    assert(data@ + nul_joined(all.skip(i as int)) =~= data@);
    data
}

/// How `candidates` are filtered by `query`; a blank query lists the first of
/// them.
pub fn filter(candidates: &[String], query: &str) -> (r: FilterPlan)
    ensures
        match r {
            FilterPlan::List(results) => {
                &&& trim(query@).len() == 0
                &&& texts(results@) == first_candidates(texts(candidates@))
            },
            FilterPlan::Find { query: q, input } => {
                &&& trim(query@).len() > 0
                &&& q@ == trim(query@)
                &&& input@ == nul_joined(texts(candidates@))
            },
        },
{
    let chars = chars_of(query);
    let words = trimmed(chars.as_slice());
    if words.len() == 0 {
        return FilterPlan::List(first_of(candidates));
    }
    FilterPlan::Find { query: string_of(words), input: finder_input(candidates) }
}

/// How many bytes come before the first zero byte.
pub open spec fn nul_len(bytes: Seq<u8>) -> int
    decreases bytes.len(),
{
    if bytes.len() == 0 || bytes[0] == 0 {
        0
    } else {
        1 + nul_len(bytes.skip(1))
    }
}

proof fn lemma_nul_len(bytes: Seq<u8>)
    ensures
        0 <= nul_len(bytes) <= bytes.len(),
        nul_len(bytes) < bytes.len() ==> bytes[nul_len(bytes)] == 0,
        forall|i: int| 0 <= i < nul_len(bytes) ==> bytes[i] != 0,
    decreases bytes.len(),
{
    if bytes.len() > 0 && bytes[0] != 0 {
        lemma_nul_len(bytes.skip(1));
        assert forall|i: int| 0 <= i < nul_len(bytes) implies bytes[i] != 0 by {
            if i > 0 {
                assert(bytes[i] == bytes.skip(1)[i - 1]);
            }
        }
    }
}

/// The texts between zero bytes, without the empty ones.
pub open spec fn nul_texts(bytes: Seq<u8>) -> Seq<Seq<char>>
    decreases bytes.len(),
    via nul_texts_decreases
{
    if bytes.len() == 0 {
        Seq::empty()
    } else if bytes[0] == 0 {
        nul_texts(bytes.skip(1))
    } else {
        seq![shown(bytes.take(nul_len(bytes)))] + nul_texts(bytes.skip(nul_len(bytes)))
    }
}

#[via_fn]
proof fn nul_texts_decreases(bytes: Seq<u8>) {
    lemma_nul_len(bytes);
}

/// Where the text that starts at `from` ends.
fn nul_end(bytes: &[u8], from: usize) -> (r: usize)
    requires
        from <= bytes@.len(),
    ensures
        r == from + nul_len(bytes@.skip(from as int)),
        from <= r <= bytes@.len(),
{
    let mut i: usize = from;
    while i < bytes.len() && bytes[i] != 0
        invariant
            from <= i <= bytes@.len(),
            from + nul_len(bytes@.skip(from as int)) == i + nul_len(bytes@.skip(i as int)),
        decreases bytes@.len() - i,
    {
        assert(bytes@.skip(i as int).skip(1) =~= bytes@.skip(i + 1));
        i += 1;
    }
    i
}

/// The texts of a list in which each is followed by a zero byte.
pub fn parse_nul(bytes: &[u8]) -> (r: Vec<String>)
    ensures
        texts(r@) == nul_texts(bytes@),
{
    let mut out: Vec<String> = Vec::new();
    let mut i: usize = 0;
    assert(bytes@.skip(0) =~= bytes@);
    assert(texts(out@) + nul_texts(bytes@) =~= nul_texts(bytes@));
    while i < bytes.len()
        invariant
            i <= bytes@.len(),
            nul_texts(bytes@) == texts(out@) + nul_texts(bytes@.skip(i as int)),
        decreases bytes@.len() - i,
    {
        let ghost rest = bytes@.skip(i as int);
        if bytes[i] == 0 {
            assert(rest.skip(1) =~= bytes@.skip(i + 1));
            i += 1;
        } else {
            let end: usize = nul_end(bytes, i);
            proof {
                lemma_nul_len(rest);
                assert(rest[0] != 0);
                assert(nul_len(rest) > 0) by {
                    lemma_nul_len(rest.skip(1));
                }
            }
            let part = slice_subrange(bytes, i, end);
            assert(part@ =~= rest.take(nul_len(rest)));
            let ghost before = texts(out@);
            out.push(lossy_text(part));
            assert(texts(out@) =~= before.push(shown(part@)));
            assert(rest.skip(nul_len(rest)) =~= bytes@.skip(end as int));
            assert(before + (seq![shown(part@)] + nul_texts(bytes@.skip(end as int))) =~= texts(
                out@,
            ) + nul_texts(bytes@.skip(end as int)));
            i = end;
        }
    }
    assert(texts(out@) + nul_texts(bytes@.skip(i as int)) =~= texts(out@));
    out
}

/// What a command printed; nothing where it could not be run.
pub fn command_texts(output: &Option<Vec<u8>>) -> (r: Vec<String>)
    ensures
        match output {
            Some(bytes) => texts(r@) == nul_texts(bytes@),
            None => r@.len() == 0,
        },
{
    match output {
        Some(bytes) => parse_nul(bytes.as_slice()),
        None => Vec::new(),
    }
}

/// What the picker is told.
#[derive(Debug)]
pub enum PickerMsg {
    /// All candidates.
    Candidates(Vec<String>),
    /// The query changed.
    Query(String),
    /// The query has settled: filter by it.
    Filter(String),
    /// The candidates that match.
    Results(Vec<String>),
    /// Open the result at this place.
    Confirm(usize),
    /// Open the selected result.
    ConfirmCurrent,
    /// The picker was closed.
    Closed,
}

/// What the picker answers.
#[derive(Debug)]
pub enum PickerOutput {
    Pick(FilePath),
    Cancelled,
}

/// How the picker is opened.
#[derive(Debug)]
pub struct PickerInit {
    /// The directory that is searched, expanded.
    pub root: String,
    /// Width in pixels.
    pub width: i32,
    /// Height in pixels.
    pub height: i32,
}

/// What the picker shows below the query.
#[derive(Debug, Clone, Copy, PartialEq, Eq, Structural)]
pub enum PickerPage {
    Empty,
    Results,
}

/// What is done on behalf of the picker.
#[derive(Debug)]
pub enum PickerEffect {
    /// List the results anew.
    Rebuild,
    ShowPage(PickerPage),
    /// Forget the filtering that was scheduled.
    CancelFilter,
    /// Filter by this query once typing has rested.
    ScheduleFilter(String),
    /// Filter the candidates by this query in the background.
    RunFilter(String),
    Output(PickerOutput),
    Close,
}

/// The file picker.
#[derive(Debug)]
pub struct PickerDialog {
    pub candidates: Vec<String>,
    pub results: Vec<String>,
    /// Whether the picker has answered.
    pub done: bool,
    /// Whether filtering is scheduled.
    pub scheduled: bool,
}

/// The file picker, with its lists as texts.
pub struct PickerView {
    pub candidates: Seq<Seq<char>>,
    pub results: Seq<Seq<char>>,
    pub done: bool,
    pub scheduled: bool,
}

impl View for PickerDialog {
    type V = PickerView;

    open spec fn view(&self) -> PickerView {
        PickerView {
            candidates: texts(self.candidates@),
            results: texts(self.results@),
            done: self.done,
            scheduled: self.scheduled,
        }
    }
}

/// A row as the list counts it; a negative count is the first.
pub open spec fn row_place(row: i32) -> int {
    if row < 0 {
        0
    } else {
        row as int
    }
}

/// An answer of the picker, with its path as bytes.
pub enum Answer {
    Pick(Seq<u8>),
    Cancelled,
}

/// The answer for the result at `index`, if there is one and none was given.
pub open spec fn picked(p: PickerView, index: int) -> Option<Answer> {
    if !p.done && 0 <= index < p.results.len() {
        Some(Answer::Pick(encode_utf8(p.results[index])))
    } else {
        None
    }
}

/// What the picker answers to `msg`. `selected` is the selected row.
pub open spec fn picker_answer(p: PickerView, msg: PickerMsg, selected: Option<i32>) -> Option<
    Answer,
> {
    match msg {
        PickerMsg::Confirm(index) => picked(p, index as int),
        PickerMsg::ConfirmCurrent => match selected {
            Some(row) => picked(p, row_place(row)),
            None => None,
        },
        PickerMsg::Closed => if p.done {
            None
        } else {
            Some(Answer::Cancelled)
        },
        _ => None,
    }
}

/// The picker after `msg`.
pub open spec fn picker_after(p: PickerView, msg: PickerMsg, selected: Option<i32>) -> PickerView {
    match msg {
        PickerMsg::Candidates(paths) => PickerView {
            candidates: texts(paths@),
            results: first_candidates(texts(paths@)),
            ..p
        },
        PickerMsg::Query(_) => PickerView { scheduled: true, ..p },
        PickerMsg::Filter(_) => PickerView { scheduled: false, ..p },
        PickerMsg::Results(results) => PickerView { results: texts(results@), ..p },
        _ => PickerView { done: p.done || picker_answer(p, msg, selected) is Some, ..p },
    }
}

/// The page that shows for a number of results.
pub open spec fn page_for_count(count: nat) -> PickerPage {
    if count == 0 {
        PickerPage::Empty
    } else {
        PickerPage::Results
    }
}

/// Whether `output` says `answer`.
pub open spec fn is_output(output: PickerOutput, answer: Answer) -> bool {
    match (output, answer) {
        (PickerOutput::Pick(path), Answer::Pick(bytes)) => path@ == bytes,
        (PickerOutput::Cancelled, Answer::Cancelled) => true,
        _ => false,
    }
}

/// Whether `effects` are what is done for `msg`.
pub open spec fn are_picker_effects(
    effects: Seq<PickerEffect>,
    p: PickerView,
    msg: PickerMsg,
    selected: Option<i32>,
) -> bool {
    let after = picker_after(p, msg, selected);
    match msg {
        PickerMsg::Candidates(_) | PickerMsg::Results(_) => effects == seq![
            PickerEffect::Rebuild,
            PickerEffect::ShowPage(page_for_count(after.results.len())),
        ],
        PickerMsg::Query(text) => effects == (if p.scheduled {
            seq![PickerEffect::CancelFilter, PickerEffect::ScheduleFilter(text)]
        } else {
            seq![PickerEffect::ScheduleFilter(text)]
        }),
        PickerMsg::Filter(query) => effects == seq![PickerEffect::RunFilter(query)],
        _ => match picker_answer(p, msg, selected) {
            Some(answer) => {
                &&& effects.len() == (if answer is Pick {
                    2int
                } else {
                    1
                })
                &&& effects[0] matches PickerEffect::Output(output) && is_output(output, answer)
                &&& answer is Pick ==> effects[1] == PickerEffect::Close
            },
            None => effects.len() == 0,
        },
    }
}

/// The page that shows for a number of results.
pub fn update_stack_page(count: usize) -> (r: PickerPage)
    ensures
        r == page_for_count(count as nat),
{
    if count == 0 {
        PickerPage::Empty
    } else {
        PickerPage::Results
    }
}

impl PickerDialog {
    /// A picker without candidates.
    pub fn new() -> (r: PickerDialog)
        ensures
            r@ == (PickerView {
                candidates: Seq::empty(),
                results: Seq::empty(),
                done: false,
                scheduled: false,
            }),
    {
        let r = PickerDialog {
            candidates: Vec::new(),
            results: Vec::new(),
            done: false,
            scheduled: false,
        };
        assert(texts(r.candidates@) =~= Seq::empty());
        assert(texts(r.results@) =~= Seq::empty());
        r
    }

    /// Open the result at `index`, unless the picker has answered.
    fn confirm(&mut self, index: usize) -> (r: Vec<PickerEffect>)
        ensures
            match picked(old(self)@, index as int) {
                Some(answer) => {
                    &&& r@.len() == 2
                    &&& r@[0] matches PickerEffect::Output(output) && is_output(output, answer)
                    &&& r@[1] == PickerEffect::Close
                    &&& final(self)@ == (PickerView { done: true, ..old(self)@ })
                },
                None => r@.len() == 0 && *final(self) == *old(self),
            },
    {
        let mut effects: Vec<PickerEffect> = Vec::new();
        if !self.done && index < self.results.len() {
            self.done = true;
            let path = FilePath::new(self.results[index].as_str());
            effects.push(PickerEffect::Output(PickerOutput::Pick(path)));
            effects.push(PickerEffect::Close);
        }
        effects
    }

    /// Take in `msg`. `selected` is the row that is selected in the list.
    pub fn update(&mut self, msg: PickerMsg, selected: Option<i32>) -> (r: Vec<PickerEffect>)
        ensures
            final(self)@ == picker_after(old(self)@, msg, selected),
            are_picker_effects(r@, old(self)@, msg, selected),
    {
        let ghost before = self@;
        let mut effects: Vec<PickerEffect> = Vec::new();
        match msg {
            PickerMsg::Candidates(paths) => {
                self.results = first_of(paths.as_slice());
                self.candidates = paths;
                effects.push(PickerEffect::Rebuild);
                effects.push(PickerEffect::ShowPage(update_stack_page(self.results.len())));
                assert(self@.results.len() == self.results@.len());
                assert(effects@ =~= seq![
                    PickerEffect::Rebuild,
                    PickerEffect::ShowPage(page_for_count(self@.results.len())),
                ]);
            },
            PickerMsg::Query(text) => {
                let ghost asked = text;
                if self.scheduled {
                    effects.push(PickerEffect::CancelFilter);
                }
                effects.push(PickerEffect::ScheduleFilter(text));
                self.scheduled = true;
                assert(effects@ =~= (if before.scheduled {
                    seq![PickerEffect::CancelFilter, PickerEffect::ScheduleFilter(asked)]
                } else {
                    seq![PickerEffect::ScheduleFilter(asked)]
                }));
            },
            PickerMsg::Filter(query) => {
                let ghost asked = query;
                self.scheduled = false;
                effects.push(PickerEffect::RunFilter(query));
                assert(effects@ =~= seq![PickerEffect::RunFilter(asked)]);
            },
            PickerMsg::Results(results) => {
                self.results = results;
                effects.push(PickerEffect::Rebuild);
                effects.push(PickerEffect::ShowPage(update_stack_page(self.results.len())));
                assert(self@.results.len() == self.results@.len());
                assert(effects@ =~= seq![
                    PickerEffect::Rebuild,
                    PickerEffect::ShowPage(page_for_count(self@.results.len())),
                ]);
            },
            PickerMsg::Confirm(index) => {
                return self.confirm(index);
            },
            PickerMsg::ConfirmCurrent => {
                if let Some(row) = selected {
                    return self.confirm(
                        if row < 0 {
                            0
                        } else {
                            row as usize
                        },
                    );
                }
            },
            PickerMsg::Closed => {
                if !self.done {
                    self.done = true;
                    effects.push(PickerEffect::Output(PickerOutput::Cancelled));
                }
            },
        }
        effects
    }
}

/// Where the keyboard goes when the active line moves.
#[derive(Debug, Clone, Copy, PartialEq, Eq, Structural)]
pub enum LineMove {
    Stay,
    FocusEntry,
    Select(usize),
}

/// Where the active line goes from `current`, the selected row, or the query
/// where it is `None`. The query counts as the line above the first row.
pub open spec fn line_move(current: Option<usize>, delta: int, rows: int) -> LineMove {
    match current {
        None => if delta > 0 && rows > 0 {
            LineMove::Select(0)
        } else {
            LineMove::Stay
        },
        Some(index) => if index + delta < 0 {
            LineMove::FocusEntry
        } else if index + delta < rows {
            LineMove::Select((index + delta) as usize)
        } else {
            LineMove::Stay
        },
    }
}

/// Move the active line by `delta` rows: from the query, if it has the
/// keyboard, or else from the selected row.
pub fn move_selection(
    entry_focused: bool,
    selected: Option<i32>,
    delta: isize,
    rows: usize,
) -> (r: LineMove)
    ensures
        r == line_move(
            if entry_focused {
                None
            } else {
                match selected {
                    Some(row) => Some(row_place(row) as usize),
                    None => None,
                }
            },
            delta as int,
            rows as int,
        ),
{
    let current: Option<usize> = if entry_focused {
        None
    } else {
        match selected {
            Some(row) => Some(
                if row < 0 {
                    0
                } else {
                    row as usize
                },
            ),
            None => None,
        }
    };
    match current {
        None => if delta > 0 && rows > 0 {
            LineMove::Select(0)
        } else {
            LineMove::Stay
        },
        Some(index) => {
            let target: i128 = index as i128 + delta as i128;
            if target < 0 {
                LineMove::FocusEntry
            } else if target < rows as i128 {
                LineMove::Select(target as usize)
            } else {
                LineMove::Stay
            }
        },
    }
}

/// What a key does in the picker.
#[derive(Debug, Clone, Copy, PartialEq, Eq, Structural)]
pub enum PickerKey {
    Close,
    /// Move the active line by this many rows.
    Move(isize),
    /// Open the result at this place.
    Confirm(usize),
    /// Leave the key to the widget that has the keyboard.
    Pass,
}

/// What a key does in the picker: Escape closes it, Ctrl+n and Ctrl+p move the
/// active line, and Return, Enter or the space bar open the selected row,
/// unless the query has the keyboard.
pub open spec fn picker_key_action(
    key: Key,
    modifiers: ModifierType,
    entry_focused: bool,
    selected: Option<i32>,
) -> PickerKey {
    if key.value == KEY_ESCAPE {
        PickerKey::Close
    } else if modifiers.has_control() {
        if key.value == KEY_N {
            PickerKey::Move(1)
        } else if key.value == KEY_P {
            PickerKey::Move((-1) as isize)
        } else {
            PickerKey::Pass
        }
    } else if (key.value == KEY_RETURN || key.value == KEY_KP_ENTER || key.value == KEY_SPACE)
        && !entry_focused && selected is Some {
        PickerKey::Confirm(row_place(selected->0) as usize)
    } else {
        PickerKey::Pass
    }
}

/// What a key does in the picker.
pub fn picker_key(
    key: Key,
    modifiers: ModifierType,
    entry_focused: bool,
    selected: Option<i32>,
) -> (r: PickerKey)
    ensures
        r == picker_key_action(key, modifiers, entry_focused, selected),
{
    if key.value == KEY_ESCAPE {
        return PickerKey::Close;
    }
    if modifiers.control() {
        if key.value == KEY_N {
            return PickerKey::Move(1);
        }
        if key.value == KEY_P {
            return PickerKey::Move(-1);
        }
        return PickerKey::Pass;
    }
    if key.value == KEY_RETURN || key.value == KEY_KP_ENTER || key.value == KEY_SPACE {
        if !entry_focused {
            if let Some(row) = selected {
                return PickerKey::Confirm(
                    if row < 0 {
                        0
                    } else {
                        row as usize
                    },
                );
            }
        }
    }
    PickerKey::Pass
}

/// Where the cursor of the query goes on a key, if the key is one for that:
/// with Control, `a` and `e` go to the ends of the line, `f` and `b` one
/// character on and back.
pub open spec fn cursor_after(
    key: Key,
    modifiers: ModifierType,
    length: int,
    position: int,
) -> Option<int> {
    if !modifiers.has_control() {
        None
    } else if key.value == KEY_A {
        Some(0)
    } else if key.value == KEY_E {
        Some(length)
    } else if key.value == KEY_F {
        Some(
            if position < length {
                position + 1
            } else {
                length
            },
        )
    } else if key.value == KEY_B {
        Some(
            if position > 0 {
                position - 1
            } else {
                0
            },
        )
    } else {
        None
    }
}

/// Where the cursor of the query `text` goes on a key.
pub fn entry_key(key: Key, modifiers: ModifierType, text: &str, position: i32) -> (r: Option<i32>)
    requires
        text@.len() <= i32::MAX,
    ensures
        match cursor_after(key, modifiers, text@.len() as int, position as int) {
            Some(place) => r is Some && r->0 == place,
            None => r is None,
        },
{
    if !modifiers.control() {
        return None;
    }
    let chars = chars_of(text);
    let length: i32 = chars.len() as i32;
    if key.value == KEY_A {
        Some(0)
    } else if key.value == KEY_E {
        Some(length)
    } else if key.value == KEY_F {
        if position < length {
            Some(position + 1)
        } else {
            Some(length)
        }
    } else if key.value == KEY_B {
        if position > 0 {
            Some(position - 1)
        } else {
            Some(0)
        }
    } else {
        None
    }
}

/// The answers that the picker gives to a row of messages.
pub open spec fn picker_answers(p: PickerView, steps: Seq<(PickerMsg, Option<i32>)>) -> Seq<Answer>
    decreases steps.len(),
{
    if steps.len() == 0 {
        Seq::empty()
    } else {
        let (msg, selected) = steps[0];
        let later = picker_answers(picker_after(p, msg, selected), steps.skip(1));
        match picker_answer(p, msg, selected) {
            Some(answer) => seq![answer] + later,
            None => later,
        }
    }
}

/// The picker answers once at most, whatever it is told.
pub proof fn law_picker_answers_once(p: PickerView, steps: Seq<(PickerMsg, Option<i32>)>)
    ensures
        picker_answers(p, steps).len() <= 1,
        p.done ==> picker_answers(p, steps).len() == 0,
    decreases steps.len(),
{
    if steps.len() > 0 {
        law_picker_answers_once(picker_after(p, steps[0].0, steps[0].1), steps.skip(1));
    }
}

/// A picker that is closed has answered, whatever it was told before.
pub proof fn law_closed_picker_has_answered(p: PickerView, steps: Seq<(PickerMsg, Option<i32>)>)
    requires
        !p.done,
        exists|i: int| 0 <= i < steps.len() && (#[trigger] steps[i]).0 is Closed,
    ensures
        picker_answers(p, steps).len() == 1,
    decreases steps.len(),
{
    let (msg, selected) = steps[0];
    let after = picker_after(p, msg, selected);
    law_picker_answers_once(after, steps.skip(1));
    if picker_answer(p, msg, selected) is None {
        let i = choose|i: int| 0 <= i < steps.len() && (#[trigger] steps[i]).0 is Closed;
        assert(i > 0);
        assert(steps.skip(1)[i - 1] == steps[i]);
        law_closed_picker_has_answered(after, steps.skip(1));
    }
}

/// The query is the line above the first row: moving down from it selects the
/// first row, and moving up from there returns to it.
pub proof fn law_query_is_the_line_above(rows: int)
    ensures
        rows > 0 ==> line_move(None, 1, rows) == LineMove::Select(0),
        line_move(Some(0), -1, rows) == LineMove::FocusEntry,
        line_move(None, -1, rows) == LineMove::Stay,
{
}

/// Moving up undoes moving down, wherever there is a row to move to.
pub proof fn law_moving_up_undoes_moving_down(index: usize, rows: int)
    requires
        index + 1 < rows <= usize::MAX,
    ensures
        line_move(Some(index), 1, rows) == LineMove::Select((index + 1) as usize),
        line_move(Some((index + 1) as usize), -1, rows) == LineMove::Select(index),
{
}

proof fn lemma_trim_keeps_start(s: Seq<char>)
    requires
        s.len() > 0,
        !crate::text::is_blank(s[0]),
    ensures
        trim(s).len() > 0,
{
    lemma_trim_end_keeps_start(s);
}

proof fn lemma_trim_end_keeps_start(s: Seq<char>)
    requires
        s.len() > 0,
        !crate::text::is_blank(s[0]),
    ensures
        crate::text::trim_end(s).len() > 0,
    decreases s.len(),
{
    if s.len() > 1 && crate::text::is_blank(s.last()) {
        assert(s.drop_last()[0] == s[0]);
        lemma_trim_end_keeps_start(s.drop_last());
    }
}

/// An abbreviated directory expands to the one it stands for. A directory
/// outside the home directory must not itself read as one to be expanded.
pub proof fn law_abbreviation_expands_back(dir: Seq<char>, home: Seq<char>)
    requires
        dir == home || has_prefix(dir, home + "/"@) || (trim(dir).len() > 0 && dir != "~"@
            && !has_prefix(dir, "~/"@)),
    ensures
        expanded(abbreviated(dir, home), home) == dir,
{
    reveal_strlit("~");
    reveal_strlit("~/");
    reveal_strlit("/");
    if dir != home && has_prefix(dir, home + "/"@) {
        let rest = dir.skip(home.len() as int + 1);
        let short = "~/"@ + rest;
        assert(short[0] == '~' && short[1] == '/');
        lemma_trim_keeps_start(short);
        assert(short.len() >= 2 && "~"@.len() == 1);
        assert(short.take(2) =~= "~/"@);
        assert(short.skip(2) =~= rest);
        assert(dir.take(home.len() as int + 1) =~= home + "/"@);
        assert(home + "/"@ + rest =~= dir);
    }
}

proof fn lemma_scalar_has_no_zero(c: char)
    requires
        c != '\0',
    ensures
        forall|i: int|
            0 <= i < encode_scalar(c as u32).len() ==> #[trigger] encode_scalar(c as u32)[i] != 0,
        encode_scalar(c as u32).len() > 0,
{
    let v = c as u32;
    assert(v != 0);
    assert(v <= 0x7f ==> (v & 0x7F) as u8 != 0) by (bit_vector)
        requires
            v != 0u32,
    ;
    assert((0xC0u8 | ((v >> 6) & 0x1F) as u8) != 0u8) by (bit_vector);
    assert((0xE0u8 | ((v >> 12) & 0x0F) as u8) != 0u8) by (bit_vector);
    assert((0xF0u8 | ((v >> 18) & 0x07) as u8) != 0u8) by (bit_vector);
    assert((0x80u8 | (v & 0x3F) as u8) != 0u8) by (bit_vector);
    assert((0x80u8 | ((v >> 6) & 0x3F) as u8) != 0u8) by (bit_vector);
    assert((0x80u8 | ((v >> 12) & 0x3F) as u8) != 0u8) by (bit_vector);
}

proof fn lemma_text_has_no_zero(text: Seq<char>)
    requires
        !text.contains('\0'),
    ensures
        forall|i: int| 0 <= i < encode_utf8(text).len() ==> #[trigger] encode_utf8(text)[i] != 0,
        text.len() > 0 ==> encode_utf8(text).len() > 0,
    decreases text.len(),
{
    if text.len() > 0 {
        assert(text.contains(text[0]));
        lemma_scalar_has_no_zero(text[0]);
        assert forall|c: char| text.drop_first().contains(c) implies text.contains(c) by {
            let i = choose|i: int| 0 <= i < text.drop_first().len() && text.drop_first()[i] == c;
            assert(text[i + 1] == c);
        }
        lemma_text_has_no_zero(text.drop_first());
        let head = encode_scalar(text[0] as u32);
        assert forall|i: int| 0 <= i < encode_utf8(text).len() implies #[trigger] encode_utf8(
            text,
        )[i] != 0 by {
            if i < head.len() {
                assert(encode_utf8(text)[i] == head[i]);
            } else {
                assert(encode_utf8(text)[i] == encode_utf8(text.drop_first())[i - head.len()]);
            }
        }
    }
}

proof fn lemma_nul_len_at(bytes: Seq<u8>, n: int)
    requires
        0 <= n < bytes.len(),
        bytes[n] == 0,
        forall|i: int| 0 <= i < n ==> bytes[i] != 0,
    ensures
        nul_len(bytes) == n,
{
    lemma_nul_len(bytes);
    if nul_len(bytes) < n {
        assert(bytes[nul_len(bytes)] != 0);
    }
}

/// A list that is written with zero bytes is read back as it was, provided
/// that no text in it is empty or holds a zero character itself.
pub proof fn law_nul_list_is_read_back(items: Seq<Seq<char>>)
    requires
        forall|i: int|
            0 <= i < items.len() ==> (#[trigger] items[i]).len() > 0 && !items[i].contains('\0'),
    ensures
        nul_texts(nul_joined(items)) == items,
    decreases items.len(),
{
    broadcast use {vstd::utf8::encode_utf8_valid_utf8, vstd::utf8::encode_utf8_decode_utf8};

    if items.len() > 0 {
        let head = encode_utf8(items[0]);
        let tail = nul_joined(items.skip(1));
        let bytes = head.push(0) + tail;
        assert(items[0].len() > 0 && !items[0].contains('\0'));
        lemma_text_has_no_zero(items[0]);
        assert(bytes[head.len() as int] == 0);
        assert forall|i: int| 0 <= i < head.len() implies bytes[i] != 0 by {
            assert(bytes[i] == head[i]);
        }
        lemma_nul_len_at(bytes, head.len() as int);
        assert(bytes[0] != 0);
        assert(bytes.take(head.len() as int) =~= head);
        let rest = bytes.skip(head.len() as int);
        assert(rest[0] == 0);
        assert(rest.skip(1) =~= tail);
        assert forall|i: int| 0 <= i < items.skip(1).len() implies (
        #[trigger] items.skip(1)[i]).len() > 0 && !items.skip(1)[i].contains('\0') by {
            assert(items.skip(1)[i] == items[i + 1]);
        }
        law_nul_list_is_read_back(items.skip(1));
        assert(nul_texts(bytes) == seq![shown(head)] + nul_texts(rest));
        assert(nul_texts(rest) == nul_texts(tail));
        assert(seq![items[0]] + items.skip(1) =~= items);
    } else {
        assert(items =~= Seq::empty());
    }
}

/// Opening a row answers with the path of exactly that row, whether the row is
/// named or is the selected one; nothing else of the picker changes but that
/// it has answered.
pub proof fn law_row_answers_with_its_own_path(p: PickerView, index: usize, row: i32)
    requires
        !p.done,
        index < p.results.len(),
        row == index,
    ensures
        picker_answer(p, PickerMsg::Confirm(index), None) == Some(
            Answer::Pick(encode_utf8(p.results[index as int])),
        ),
        picker_answer(p, PickerMsg::ConfirmCurrent, Some(row)) == Some(
            Answer::Pick(encode_utf8(p.results[index as int])),
        ),
        picker_after(p, PickerMsg::Confirm(index), None) == (PickerView { done: true, ..p }),
        picker_after(p, PickerMsg::ConfirmCurrent, Some(row)) == (PickerView { done: true, ..p }),
{
}

/// Two rows with different paths give different answers.
pub proof fn law_different_rows_answer_differently(p: PickerView, i: usize, j: usize)
    requires
        !p.done,
        i < p.results.len(),
        j < p.results.len(),
        p.results[i as int] != p.results[j as int],
    ensures
        picker_answer(p, PickerMsg::Confirm(i), None) is Some,
        picker_answer(p, PickerMsg::Confirm(j), None) is Some,
        picker_answer(p, PickerMsg::Confirm(i), None) != picker_answer(
            p,
            PickerMsg::Confirm(j),
            None,
        ),
{
    broadcast use {vstd::utf8::encode_utf8_valid_utf8, vstd::utf8::encode_utf8_decode_utf8};

    let a = encode_utf8(p.results[i as int]);
    let b = encode_utf8(p.results[j as int]);
    assert(vstd::utf8::decode_utf8(a) == p.results[i as int]);
    assert(vstd::utf8::decode_utf8(b) == p.results[j as int]);
}

/// What is done when a row is opened: its path is handed out and the picker
/// closes. A row that is not there, no selected row, and a picker that has
/// answered do nothing; closing one that has not answered cancels.
pub proof fn law_opening_a_row_hands_out_its_path(
    p: PickerView,
    msg: PickerMsg,
    selected: Option<i32>,
    effects: Seq<PickerEffect>,
)
    requires
        are_picker_effects(effects, p, msg, selected),
    ensures
        msg matches PickerMsg::Confirm(index) ==> if !p.done && index < p.results.len() {
            &&& effects.len() == 2
            &&& effects[0] matches PickerEffect::Output(PickerOutput::Pick(path)) && path@
                == encode_utf8(p.results[index as int])
            &&& effects[1] == PickerEffect::Close
        } else {
            effects.len() == 0
        },
        msg is ConfirmCurrent ==> if !p.done && selected is Some && 0 <= selected->0
            < p.results.len() {
            &&& effects.len() == 2
            &&& effects[0] matches PickerEffect::Output(PickerOutput::Pick(path)) && path@
                == encode_utf8(p.results[selected->0 as int])
            &&& effects[1] == PickerEffect::Close
        } else {
            p.done || selected is None || selected->0 >= p.results.len() ==> effects.len() == 0
        },
        msg is Closed ==> if p.done {
            effects.len() == 0
        } else {
            effects.len() == 1 && effects[0] == PickerEffect::Output(PickerOutput::Cancelled)
        },
{
}

/// The rows are those of the last results, or the first candidates, at most
/// fifty and in their order, when a new list of them comes in; no other message
/// changes either list.
pub proof fn law_rows_are_the_last_results(
    p: PickerView,
    msg: PickerMsg,
    selected: Option<i32>,
    effects: Seq<PickerEffect>,
)
    requires
        are_picker_effects(effects, p, msg, selected),
    ensures
        ({
            let after = picker_after(p, msg, selected);
            &&& msg matches PickerMsg::Candidates(paths) ==> {
                &&& after.candidates == texts(paths@)
                &&& after.results.len() <= 50
                &&& after.results.len() == paths@.len() || (after.results.len() == 50
                    && paths@.len() > 50)
                &&& forall|i: int|
                    0 <= i < after.results.len() ==> #[trigger] after.results[i] == paths@[i]@
                &&& effects.contains(PickerEffect::Rebuild)
                &&& effects.contains(
                    PickerEffect::ShowPage(
                        if paths@.len() == 0 {
                            PickerPage::Empty
                        } else {
                            PickerPage::Results
                        },
                    ),
                )
            }
            &&& msg matches PickerMsg::Results(results) ==> {
                &&& after.candidates == p.candidates
                &&& after.results == texts(results@)
                &&& effects.contains(PickerEffect::Rebuild)
                &&& effects.contains(
                    PickerEffect::ShowPage(
                        if results@.len() == 0 {
                            PickerPage::Empty
                        } else {
                            PickerPage::Results
                        },
                    ),
                )
            }
            &&& !(msg is Candidates) && !(msg is Results) ==> after.candidates == p.candidates
                && after.results == p.results
            &&& p.done ==> after.done
        }),
{
    if msg is Candidates || msg is Results {
        assert(effects[0] == PickerEffect::Rebuild);
        assert(effects[1] is ShowPage);
        assert(effects.contains(effects[1]));
    }
}

/// What is typed is filtered by as it was typed, once typing has rested; what
/// was scheduled before is given up.
pub proof fn law_typed_query_is_filtered_by(
    p: PickerView,
    msg: PickerMsg,
    selected: Option<i32>,
    effects: Seq<PickerEffect>,
)
    requires
        are_picker_effects(effects, p, msg, selected),
    ensures
        msg matches PickerMsg::Query(text) ==> {
            &&& effects.last() == PickerEffect::ScheduleFilter(text)
            &&& p.scheduled ==> effects[0] == PickerEffect::CancelFilter
            &&& picker_after(p, msg, selected).scheduled
        },
        msg matches PickerMsg::Filter(query) ==> {
            &&& effects.len() == 1
            &&& effects[0] == PickerEffect::RunFilter(query)
            &&& !picker_after(p, msg, selected).scheduled
        },
{
}

/// A path is listed by the name of its file, under its directory: as `~` where
/// that is home, and from `~` on where it is below home.
pub proof fn law_path_is_listed_by_name_and_directory(
    dir: Seq<char>,
    name: Seq<char>,
    home: Seq<char>,
    below: Seq<char>,
)
    requires
        is_file_name(name, '/', '.'),
        dir.len() > 0,
        dir.last() != '/',
        dir.last() != '.',
    ensures
        listed_name(dir.push('/') + name) == name,
        listed_name(name) == name,
        listed_dir(name, home) == Seq::<char>::empty(),
        dir == home ==> listed_dir(dir.push('/') + name, home) == "~"@,
        dir == home + "/"@ + below ==> listed_dir(dir.push('/') + name, home) == "~/"@ + below,
        dir != home && !(home + "/"@).is_prefix_of(dir) ==> listed_dir(
            dir.push('/') + name,
            home,
        ) == dir,
{
    law_file_name_follows_the_last_separator(dir, name, '/', '.');
    law_parent_is_before_the_last_separator(dir, name, '/', '.');
    reveal_strlit("/");
    let lead = home + "/"@;
    if dir == home + "/"@ + below {
        assert(dir.take(lead.len() as int) =~= lead);
        assert(dir.skip(home.len() as int + 1) =~= below);
        assert(dir.len() > home.len());
    }
    if has_prefix(dir, lead) {
        assert(lead.is_prefix_of(dir));
    }
}

/// The root of the picker is the directory it names; `~` at its start, alone
/// or before a separator, stands for home, and so does a blank root.
pub proof fn law_tilde_stands_for_home(root: Seq<char>, home: Seq<char>)
    ensures
        expanded("~/"@ + root, home) == home + "/"@ + root,
        expanded("~"@, home) == home,
        (forall|i: int| 0 <= i < root.len() ==> is_blank(#[trigger] root[i])) ==> expanded(
            root,
            home,
        ) == home,
        root.len() > 0 && root[0] != '~' && (exists|i: int|
            0 <= i < root.len() && !is_blank(#[trigger] root[i])) ==> expanded(root, home) == root,
{
    reveal_strlit("~/");
    reveal_strlit("~");
    let long = "~/"@ + root;
    assert(long[0] == '~' && long[1] == '/');
    assert(long.take(2) =~= "~/"@);
    assert(long.skip(2) =~= root);
    assert(long.len() >= 2);
    assert("~"@.len() == 1);
    assert(!is_blank(long[0]));
    law_trim_takes_the_core(long);
    law_trim_takes_the_core(root);
    if forall|i: int| 0 <= i < root.len() ==> is_blank(#[trigger] root[i]) {
        if trim(root).len() > 0 {
            let (a, b) = choose|a: int, b: int| #[trigger] cuts_core(trim(root), root, a, b);
            assert(!is_blank(root[a]));
        }
    }
    if root.len() > 0 && root[0] != '~' {
        assert("~"@[0] == '~');
        if has_prefix(root, "~/"@) {
            assert(root.take(2)[0] == root[0]);
        }
    }
}

/// The keys of the picker: Escape closes it; Control with `n` goes down and
/// with `p` up; without Control, Return, Enter and the space bar open the
/// selected row while the query has not the keyboard. All others pass.
pub proof fn law_picker_keys(
    key: Key,
    modifiers: ModifierType,
    entry_focused: bool,
    row: i32,
)
    requires
        row >= 0,
    ensures
        ({
            let action = picker_key_action(key, modifiers, entry_focused, Some(row));
            let control = modifiers.bits & 4 == 4;
            let opens = key.value == 0xff0d || key.value == 0xff8d || key.value == 0x20;
            &&& key.value == 0xff1b <==> action == PickerKey::Close
            &&& control && key.value == 0x6e <==> action == PickerKey::Move(1)
            &&& control && key.value == 0x70 <==> action == PickerKey::Move((-1) as isize)
            &&& !control && opens && !entry_focused <==> action == PickerKey::Confirm(row as usize)
            &&& picker_key_action(key, modifiers, entry_focused, None) == (if action is Confirm {
                PickerKey::Pass
            } else {
                action
            })
        }),
{
}

/// The cursor of the query stays on the line. With Control, `a` goes to its
/// start and `e` to its end; `b` undoes `f` wherever `f` moves.
pub proof fn law_cursor_moves_on_the_line(modifiers: ModifierType, length: int, position: int)
    requires
        modifiers.bits & 4 == 4,
        0 <= position <= length,
    ensures
        cursor_after(Key { value: 0x61 }, modifiers, length, position) == Some(0int),
        cursor_after(Key { value: 0x65 }, modifiers, length, position) == Some(length),
        position < length ==> {
            let on = cursor_after(Key { value: 0x66 }, modifiers, length, position);
            &&& on == Some(position + 1)
            &&& cursor_after(Key { value: 0x62 }, modifiers, length, on->0) == Some(position)
        },
        position == length ==> cursor_after(Key { value: 0x66 }, modifiers, length, position)
            == Some(length),
        position == 0 ==> cursor_after(Key { value: 0x62 }, modifiers, length, position) == Some(
            0int,
        ),
{
}

/// The active line goes as many rows on as was asked for: past the first row
/// to the query, and not past the last. From the query it goes down to the
/// first row, if there is one.
pub proof fn law_active_line_moves_by_rows(index: usize, delta: int, rows: int)
    requires
        index < rows <= usize::MAX,
    ensures
        0 <= index + delta < rows ==> line_move(Some(index), delta, rows) == LineMove::Select(
            (index + delta) as usize,
        ),
        index + delta < 0 ==> line_move(Some(index), delta, rows) == LineMove::FocusEntry,
        index + delta >= rows ==> line_move(Some(index), delta, rows) == LineMove::Stay,
        delta > 0 ==> line_move(None, delta, rows) == LineMove::Select(0),
        delta <= 0 ==> line_move(None, delta, rows) == LineMove::Stay,
        line_move(None, delta, 0) == LineMove::Stay,
{
}

} // verus!
